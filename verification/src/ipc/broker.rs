//! IPC broker: owns every channel and routes messages.

use vstd::prelude::*;
use crate::{AgentId, Message};
use crate::ids::ChannelId;
use super::broadcast::{after_broadcast, all_have_room, lemma_broadcast_once_each, readdressed, BroadcastChannel};
use super::channel::{Channel, IpcError};
use super::unidirectional::UnidirectionalChannel;

verus! {

/// A channel of either kind, as held by the broker.
#[derive(Debug)]
pub enum AnyChannel {
    Unidirectional(UnidirectionalChannel),
    Broadcast(BroadcastChannel),
}

/// The identifier of a channel.
pub open spec fn chan_id(c: AnyChannel) -> ChannelId {
    match c {
        AnyChannel::Unidirectional(u) => u.spec_id(),
        AnyChannel::Broadcast(b) => b.spec_id(),
    }
}

/// The channel's internal consistency.
pub open spec fn chan_inv(c: AnyChannel) -> bool {
    match c {
        AnyChannel::Unidirectional(u) => true,
        AnyChannel::Broadcast(b) => b.wf(),
    }
}

/// The messages a channel holds for `r`, oldest first.
pub open spec fn chan_pending(c: AnyChannel, r: AgentId) -> Seq<Message> {
    match c {
        AnyChannel::Unidirectional(u) => if r == u.spec_receiver() {
            u.pending()
        } else {
            Seq::empty()
        },
        AnyChannel::Broadcast(b) => b.queue_of(r),
    }
}

/// Whether a channel's buffer is full.
pub open spec fn chan_full(c: AnyChannel) -> bool {
    match c {
        AnyChannel::Unidirectional(u) => u.pending().len() >= u.spec_capacity(),
        AnyChannel::Broadcast(b) => exists|k: AgentId|
            #[trigger] b.spec_receivers().contains(k) && b.queue_of(k).len() >= b.spec_capacity(),
    }
}

/// What sending `msg` on the channel answers.
pub open spec fn send_outcome(c: AnyChannel, msg: Message) -> Result<(), IpcError> {
    match c {
        AnyChannel::Unidirectional(u) => if msg.sender != u.spec_sender() {
            Err(IpcError::InvalidSender)
        } else if msg.receiver != u.spec_receiver() {
            Err(IpcError::InvalidReceiver)
        } else if u.pending().len() >= u.spec_capacity() {
            Err(IpcError::ChannelFull)
        } else {
            Ok(())
        },
        AnyChannel::Broadcast(b) => if msg.sender != b.spec_sender() {
            Err(IpcError::InvalidSender)
        } else if !all_have_room(b) {
            Err(IpcError::ChannelFull)
        } else {
            Ok(())
        },
    }
}

/// How a successful send changes the channel: `new` is `old` with `msg`
/// delivered.
pub open spec fn delivered(old: AnyChannel, new: AnyChannel, msg: Message) -> bool {
    match (old, new) {
        (AnyChannel::Unidirectional(o), AnyChannel::Unidirectional(n)) => n.pending() == o.pending().push(msg),
        (AnyChannel::Broadcast(o), AnyChannel::Broadcast(n)) => n.queues_view() == after_broadcast(
            o.queues_view(),
            o.spec_receivers(),
            msg,
        ),
        _ => false,
    }
}

/// Same kind, identifier, endpoints and capacity.
pub open spec fn same_shape(old: AnyChannel, new: AnyChannel) -> bool {
    match (old, new) {
        (AnyChannel::Unidirectional(o), AnyChannel::Unidirectional(n)) => {
            &&& n.spec_id() == o.spec_id()
            &&& n.spec_sender() == o.spec_sender()
            &&& n.spec_receiver() == o.spec_receiver()
            &&& n.spec_capacity() == o.spec_capacity()
        },
        (AnyChannel::Broadcast(o), AnyChannel::Broadcast(n)) => {
            &&& n.spec_id() == o.spec_id()
            &&& n.spec_sender() == o.spec_sender()
            &&& n.spec_receivers() == o.spec_receivers()
            &&& n.spec_capacity() == o.spec_capacity()
            &&& n.wf()
        },
        _ => false,
    }
}

/// `new` is `old` with the messages for `r` taken out (and nothing else changed).
pub open spec fn drained_for(old: AnyChannel, new: AnyChannel, r: AgentId) -> bool {
    &&& same_shape(old, new)
    &&& forall|x: AgentId| #[trigger] chan_pending(new, x) == if x == r {
        Seq::empty()
    } else {
        chan_pending(old, x)
    }
}


/// Position of the first channel with identifier `id` in `s` (or `s.len()`).
pub open spec fn chan_index(s: Seq<AnyChannel>, id: ChannelId) -> int
    decreases s.len(),
{
    if s.len() == 0 {
        0
    } else if chan_id(s[0]) == id {
        0
    } else {
        1 + chan_index(s.drop_first(), id)
    }
}

proof fn lemma_chan_index(s: Seq<AnyChannel>, id: ChannelId)
    ensures
        0 <= chan_index(s, id) <= s.len(),
        chan_index(s, id) < s.len() ==> chan_id(s[chan_index(s, id)]) == id,
        forall|j: int| 0 <= j < chan_index(s, id) ==> chan_id(#[trigger] s[j]) != id,
        chan_index(s, id) == s.len() <==> forall|j: int| 0 <= j < s.len() ==> chan_id(#[trigger] s[j]) != id,
    decreases s.len(),
{
    if s.len() > 0 && chan_id(s[0]) != id {
        lemma_chan_index(s.drop_first(), id);
        assert forall|j: int| 0 <= j < chan_index(s, id) implies chan_id(#[trigger] s[j]) != id by {
            if j > 0 {
                assert(s[j] == s.drop_first()[j - 1]);
            }
        }
        if chan_index(s, id) < s.len() {
            assert(s[chan_index(s, id)] == s.drop_first()[chan_index(s, id) - 1]);
        } else {
            assert forall|j: int| 0 <= j < s.len() implies chan_id(#[trigger] s[j]) != id by {
                if j > 0 {
                    assert(s[j] == s.drop_first()[j - 1]);
                }
            }
        }
    }
}

/// `s` with `c` in place of the channel of the same identifier, or with
/// `c` appended when there is none.
pub open spec fn upsert(s: Seq<AnyChannel>, c: AnyChannel) -> Seq<AnyChannel> {
    let i = chan_index(s, chan_id(c));
    if i < s.len() {
        s.update(i, c)
    } else {
        s.push(c)
    }
}

/// Every message held for `r`, channel by channel in order.
pub open spec fn pending_all(s: Seq<AnyChannel>, r: AgentId) -> Seq<Message>
    decreases s.len(),
{
    if s.len() == 0 {
        Seq::empty()
    } else {
        pending_all(s.drop_last(), r) + chan_pending(s.last(), r)
    }
}

/// `n`, or `usize::MAX` when `n` does not fit.
pub open spec fn capped(n: nat) -> int {
    if n <= usize::MAX {
        n as int
    } else {
        usize::MAX as int
    }
}

/// `new` is `old` with a fresh, empty point-to-point channel `id` from
/// `sender` to `receiver` installed.
pub open spec fn installed_p2p(
    old: IpcBroker,
    new: IpcBroker,
    id: ChannelId,
    sender: AgentId,
    receiver: AgentId,
    capacity: usize,
) -> bool {
    let c = new.chans()[chan_index(new.chans(), id)];
    &&& new.has_channel(id)
    &&& new.chans() == upsert(old.chans(), c)
    &&& c matches AnyChannel::Unidirectional(u) && u.spec_sender() == sender && u.spec_receiver() == receiver
        && u.spec_capacity() == capacity && u.pending().len() == 0
}

/// `new` is `old` with a fresh, empty broadcast channel `id` from `sender`
/// to `receivers` installed.
pub open spec fn installed_broadcast(
    old: IpcBroker,
    new: IpcBroker,
    id: ChannelId,
    sender: AgentId,
    receivers: Seq<AgentId>,
    capacity: usize,
) -> bool {
    let c = new.chans()[chan_index(new.chans(), id)];
    &&& new.has_channel(id)
    &&& new.chans() == upsert(old.chans(), c)
    &&& c matches AnyChannel::Broadcast(b) && b.spec_sender() == sender && b.spec_receivers() == receivers
        && b.spec_capacity() == capacity && forall|k: AgentId| #[trigger] b.queue_of(k).len() == 0
}

/// A send of `msg` on channel `channel_id` answered `r` and took `old` to
/// `new`: `ChannelNotFound` and no change when there is no such channel,
/// otherwise the channel's own answer, the message delivered on `Ok` and
/// nothing queued on an error.
pub open spec fn routed_send(
    old: IpcBroker,
    new: IpcBroker,
    channel_id: ChannelId,
    msg: Message,
    r: Result<(), IpcError>,
) -> bool {
    &&& !old.has_channel(channel_id) ==> r == Err::<(), IpcError>(IpcError::ChannelNotFound) && new.chans()
        == old.chans()
    &&& old.has_channel(channel_id) ==> ({
        let i = chan_index(old.chans(), channel_id);
        let c = old.chans()[i];
        let n = new.chans()[i];
        &&& r == send_outcome(c, msg)
        &&& new.chans() == old.chans().update(i, n)
        &&& same_shape(c, n)
        &&& (r is Ok ==> delivered(c, n, msg))
        &&& (r is Err ==> forall|x: AgentId| #[trigger] chan_pending(n, x) == chan_pending(c, x))
    })
}

/// `new` is `old` with every message for `receiver` taken out.
pub open spec fn drained_all(old: IpcBroker, new: IpcBroker, receiver: AgentId) -> bool {
    &&& new.chans().len() == old.chans().len()
    &&& forall|j: int|
        0 <= j < old.chans().len() ==> drained_for(old.chans()[j], #[trigger] new.chans()[j], receiver)
}

/// IPC broker: owns all channels, creates and destroys them, routes sends
/// and polls.
#[derive(Debug)]
pub struct IpcBroker {
    channels: Vec<AnyChannel>,
}

impl IpcBroker {
    /// The broker's consistency: every channel consistent, identifiers distinct.
    pub closed spec fn wf(self) -> bool {
        &&& forall|i: int| 0 <= i < self.channels@.len() ==> chan_inv(#[trigger] self.channels@[i])
        &&& forall|i: int, j: int|
            0 <= i < j < self.channels@.len() ==> chan_id(#[trigger] self.channels@[i]) != chan_id(
                #[trigger] self.channels@[j],
            )
    }

    /// The channels, in order of creation.
    pub closed spec fn chans(self) -> Seq<AnyChannel> {
        self.channels@
    }

    /// Whether a channel with this identifier exists.
    pub open spec fn has_channel(self, id: ChannelId) -> bool {
        chan_index(self.chans(), id) < self.chans().len()
    }

    /// A broker with no channels.
    pub fn new() -> (b: Self)
        ensures
            b.wf(),
            b.chans().len() == 0,
    {
        IpcBroker { channels: Vec::new() }
    }

    fn find(&self, id: ChannelId) -> (r: Option<usize>)
        ensures
            r is None ==> chan_index(self.chans(), id) == self.chans().len(),
            r matches Some(i) ==> i == chan_index(self.chans(), id) && i < self.chans().len(),
    {
        proof {
            lemma_chan_index(self.channels@, id);
        }
        let mut i: usize = 0;
        while i < self.channels.len()
            invariant
                i <= self.channels@.len(),
                forall|j: int| 0 <= j < i ==> chan_id(#[trigger] self.channels@[j]) != id,
                0 <= chan_index(self.channels@, id) <= self.channels@.len(),
                chan_index(self.channels@, id) < self.channels@.len() ==> chan_id(
                    self.channels@[chan_index(self.channels@, id)],
                ) == id,
                forall|j: int| 0 <= j < chan_index(self.channels@, id) ==> chan_id(#[trigger] self.channels@[j]) != id,
                chan_index(self.channels@, id) == self.channels@.len() <==> forall|j: int|
                    0 <= j < self.channels@.len() ==> chan_id(#[trigger] self.channels@[j]) != id,
            decreases self.channels@.len() - i,
        {
            if self.channels[i].id() == id {
                return Some(i);
            }
            i = i + 1;
        }
        None
    }

    fn install(&mut self, c: AnyChannel)
        requires
            old(self).wf(),
            chan_inv(c),
        ensures
            final(self).wf(),
            final(self).chans() == upsert(old(self).chans(), c),
    {
        let id = c.id();
        match self.find(id) {
            Some(i) => {
                self.channels.set(i, c);
            },
            None => {
                self.channels.push(c);
            },
        }
        proof {
            lemma_chan_index(old(self).channels@, id);
        }
    }

    /// Create a point-to-point channel; always succeeds with the new
    /// channel's identifier.
    pub fn create_p2p_channel(&mut self, sender: AgentId, receiver: AgentId, capacity: usize) -> (r: Result<
        ChannelId,
        IpcError,
    >)
        requires
            old(self).wf(),
        ensures
            final(self).wf(),
            r is Ok,
            installed_p2p(*old(self), *final(self), r->Ok_0, sender, receiver, capacity),
    {
        let ch = UnidirectionalChannel::new(sender, receiver, capacity);
        let id = ch.id();
        let c = AnyChannel::Unidirectional(ch);
        self.install(c);
        proof {
            lemma_chan_index(old(self).channels@, id);
            lemma_chan_index(self.channels@, id);
            let i0 = chan_index(old(self).channels@, id);
            let pos = if i0 < old(self).channels@.len() { i0 } else { old(self).channels@.len() as int };
            assert(self.channels@[pos] == c);
            assert(chan_id(self.channels@[pos]) == id);
            let k = chan_index(self.channels@, id);
            assert(k < self.channels@.len());
            if k != pos {
                if k < pos {
                    assert(chan_id(self.channels@[k]) != chan_id(self.channels@[pos]));
                } else {
                    assert(chan_id(self.channels@[pos]) != chan_id(self.channels@[k]));
                }
            }
        }
        Ok(id)
    }

    /// Create a broadcast channel; always succeeds with the new channel's
    /// identifier.
    pub fn create_broadcast_channel(&mut self, sender: AgentId, receivers: Vec<AgentId>, capacity: usize) -> (r:
        Result<ChannelId, IpcError>)
        requires
            old(self).wf(),
        ensures
            final(self).wf(),
            r is Ok,
            installed_broadcast(*old(self), *final(self), r->Ok_0, sender, receivers@, capacity),
    {
        let ch = BroadcastChannel::new(sender, receivers, capacity);
        let id = ch.id();
        let c = AnyChannel::Broadcast(ch);
        self.install(c);
        proof {
            lemma_chan_index(old(self).channels@, id);
            lemma_chan_index(self.channels@, id);
            let i0 = chan_index(old(self).channels@, id);
            let pos = if i0 < old(self).channels@.len() { i0 } else { old(self).channels@.len() as int };
            assert(self.channels@[pos] == c);
            assert(chan_id(self.channels@[pos]) == id);
            let k = chan_index(self.channels@, id);
            assert(k < self.channels@.len());
            if k != pos {
                if k < pos {
                    assert(chan_id(self.channels@[k]) != chan_id(self.channels@[pos]));
                } else {
                    assert(chan_id(self.channels@[pos]) != chan_id(self.channels@[k]));
                }
            }
        }
        Ok(id)
    }

    /// Destroy a channel; `true` when it existed and was removed.
    pub fn destroy_channel(&mut self, channel_id: ChannelId) -> (r: bool)
        requires
            old(self).wf(),
        ensures
            final(self).wf(),
            r == old(self).has_channel(channel_id),
            r ==> final(self).chans() == old(self).chans().remove(chan_index(old(self).chans(), channel_id)),
            !r ==> final(self).chans() == old(self).chans(),
    {
        match self.find(channel_id) {
            Some(i) => {
                self.channels.remove(i);
                proof {
                    assert forall|a: int, b: int|
                        0 <= a < b < self.channels@.len() implies chan_id(#[trigger] self.channels@[a])
                        != chan_id(#[trigger] self.channels@[b]) by {
                        let a0 = if a < i { a } else { a + 1 };
                        let b0 = if b < i { b } else { b + 1 };
                        assert(self.channels@[a] == old(self).channels@[a0]);
                        assert(self.channels@[b] == old(self).channels@[b0]);
                    }
                    assert forall|a: int| 0 <= a < self.channels@.len() implies chan_inv(
                        #[trigger] self.channels@[a],
                    ) by {
                        let a0 = if a < i { a } else { a + 1 };
                        assert(self.channels@[a] == old(self).channels@[a0]);
                    }
                }
                true
            },
            None => false,
        }
    }

    /// Send a message through a channel. `ChannelNotFound` when there is no
    /// such channel; otherwise the channel's own answer (see `send_outcome`).
    pub fn send(&mut self, channel_id: ChannelId, msg: Message) -> (r: Result<(), IpcError>)
        requires
            old(self).wf(),
        ensures
            final(self).wf(),
            routed_send(*old(self), *final(self), channel_id, msg, r),
    {
        match self.find(channel_id) {
            None => Err(IpcError::ChannelNotFound),
            Some(i) => {
                let ghost old_chans = self.channels@;
                assert(chan_inv(self.channels@[i as int]));
                let r = self.channels[i].send(msg);
                proof {
                    assert(self.channels@ =~= old_chans.update(i as int, self.channels@[i as int]));
                    assert forall|a: int, b: int|
                        0 <= a < b < self.channels@.len() implies chan_id(#[trigger] self.channels@[a])
                        != chan_id(#[trigger] self.channels@[b]) by {
                        assert(chan_id(self.channels@[a]) == chan_id(old_chans[a]));
                        assert(chan_id(self.channels@[b]) == chan_id(old_chans[b]));
                    }
                    assert forall|a: int| 0 <= a < self.channels@.len() implies chan_inv(
                        #[trigger] self.channels@[a],
                    ) by {
                        if a != i {
                            assert(self.channels@[a] == old_chans[a]);
                        }
                    }
                }
                r
            },
        }
    }

    /// Take the messages a channel holds for `receiver` (none when there is
    /// no such channel).
    pub fn poll(&mut self, channel_id: ChannelId, receiver: AgentId) -> (r: Vec<Message>)
        requires
            old(self).wf(),
        ensures
            final(self).wf(),
            !old(self).has_channel(channel_id) ==> r@ == Seq::<Message>::empty() && final(self).chans()
                == old(self).chans(),
            old(self).has_channel(channel_id) ==> ({
                let i = chan_index(old(self).chans(), channel_id);
                let n = final(self).chans()[i];
                &&& r@ == chan_pending(old(self).chans()[i], receiver)
                &&& final(self).chans() == old(self).chans().update(i, n)
                &&& drained_for(old(self).chans()[i], n, receiver)
            }),
    {
        match self.find(channel_id) {
            None => {
                let v: Vec<Message> = Vec::new();
                assert(v@ =~= Seq::<Message>::empty());
                v
            },
            Some(i) => {
                let ghost old_chans = self.channels@;
                assert(chan_inv(self.channels@[i as int]));
                let r = self.channels[i].poll(receiver);
                proof {
                    assert(self.channels@ =~= old_chans.update(i as int, self.channels@[i as int]));
                    assert forall|a: int, b: int|
                        0 <= a < b < self.channels@.len() implies chan_id(#[trigger] self.channels@[a])
                        != chan_id(#[trigger] self.channels@[b]) by {
                        assert(chan_id(self.channels@[a]) == chan_id(old_chans[a]));
                        assert(chan_id(self.channels@[b]) == chan_id(old_chans[b]));
                    }
                    assert forall|a: int| 0 <= a < self.channels@.len() implies chan_inv(
                        #[trigger] self.channels@[a],
                    ) by {
                        if a != i {
                            assert(self.channels@[a] == old_chans[a]);
                        }
                    }
                }
                r
            },
        }
    }

    /// Take the messages every channel holds for `receiver`, channel by
    /// channel in order of creation.
    pub fn poll_all(&mut self, receiver: AgentId) -> (r: Vec<Message>)
        requires
            old(self).wf(),
        ensures
            final(self).wf(),
            r@ == pending_all(old(self).chans(), receiver),
            drained_all(*old(self), *final(self), receiver),
    {
        let ghost old_chans = self.channels@;
        let mut all: Vec<Message> = Vec::new();
        let mut i: usize = 0;
        while i < self.channels.len()
            invariant
                self.wf(),
                i <= self.channels@.len(),
                self.channels@.len() == old_chans.len(),
                all@ == pending_all(old_chans.take(i as int), receiver),
                forall|j: int| 0 <= j < i ==> drained_for(old_chans[j], #[trigger] self.channels@[j], receiver),
                forall|j: int| i <= j < self.channels@.len() ==> #[trigger] self.channels@[j] == old_chans[j],
                forall|j: int| 0 <= j < self.channels@.len() ==> chan_id(#[trigger] self.channels@[j]) == chan_id(
                    old_chans[j],
                ),
            decreases self.channels@.len() - i,
        {
            let ghost before = self.channels@;
            assert(chan_inv(self.channels@[i as int]));
            let mut got = self.channels[i].poll(receiver);
            proof {
                assert(self.channels@ =~= before.update(i as int, self.channels@[i as int]));
                assert(old_chans.take(i + 1).drop_last() =~= old_chans.take(i as int));
                assert forall|a: int, b: int|
                    0 <= a < b < self.channels@.len() implies chan_id(#[trigger] self.channels@[a]) != chan_id(
                        #[trigger] self.channels@[b],
                    ) by {
                    assert(chan_id(self.channels@[a]) == chan_id(before[a]));
                    assert(chan_id(self.channels@[b]) == chan_id(before[b]));
                }
                assert forall|a: int| 0 <= a < self.channels@.len() implies chan_inv(#[trigger] self.channels@[a]) by {
                    if a != i {
                        assert(self.channels@[a] == before[a]);
                    }
                }
            }
            let ghost prev = all@;
            all.append(&mut got);
            i = i + 1;
        }
        proof {
            assert(old_chans.take(old_chans.len() as int) =~= old_chans);
        }
        all
    }

    /// Number of messages held for `receiver` across all channels (capped
    /// at `usize::MAX`).
    pub fn pending_count(&self, receiver: AgentId) -> (r: usize)
        requires
            self.wf(),
        ensures
            r == capped(pending_all(self.chans(), receiver).len()),
    {
        let mut total: usize = 0;
        let mut i: usize = 0;
        while i < self.channels.len()
            invariant
                self.wf(),
                i <= self.channels@.len(),
                total as int == if pending_all(self.channels@.take(i as int), receiver).len() <= usize::MAX {
                    pending_all(self.channels@.take(i as int), receiver).len() as int
                } else {
                    usize::MAX as int
                },
            decreases self.channels@.len() - i,
        {
            proof {
                assert(self.channels@.take(i + 1).drop_last() =~= self.channels@.take(i as int));
            }
            assert(chan_inv(self.channels@[i as int]));
            let n = self.channels[i].pending_count(receiver);
            total = total.saturating_add(n);
            i = i + 1;
        }
        proof {
            assert(self.channels@.take(self.channels@.len() as int) =~= self.channels@);
        }
        total
    }

    /// Whether a channel with this identifier exists.
    pub fn channel_exists(&self, channel_id: ChannelId) -> (r: bool)
        ensures
            r == self.has_channel(channel_id),
    {
        self.find(channel_id).is_some()
    }

    /// The number of channels.
    pub fn channel_count(&self) -> (r: usize)
        ensures
            r == self.chans().len(),
    {
        self.channels.len()
    }

    /// The identifiers of all channels, in order of creation.
    pub fn channel_ids(&self) -> (r: Vec<ChannelId>)
        ensures
            r@ == self.chans().map_values(|c: AnyChannel| chan_id(c)),
    {
        let mut ids: Vec<ChannelId> = Vec::new();
        let mut i: usize = 0;
        while i < self.channels.len()
            invariant
                i <= self.channels@.len(),
                ids@ == self.channels@.take(i as int).map_values(|c: AnyChannel| chan_id(c)),
            decreases self.channels@.len() - i,
        {
            ids.push(self.channels[i].id());
            proof {
                assert(ids@ =~= self.channels@.take(i + 1).map_values(|c: AnyChannel| chan_id(c)));
            }
            i = i + 1;
        }
        proof {
            assert(self.channels@.take(self.channels@.len() as int) =~= self.channels@);
        }
        ids
    }

    /// Whether some channel is full (for monitoring backpressure).
    pub fn has_full_channels(&self) -> (r: bool)
        requires
            self.wf(),
        ensures
            r == exists|j: int| 0 <= j < self.chans().len() && chan_full(#[trigger] self.chans()[j]),
    {
        let mut i: usize = 0;
        while i < self.channels.len()
            invariant
                self.wf(),
                i <= self.channels@.len(),
                forall|j: int| 0 <= j < i ==> !chan_full(#[trigger] self.channels@[j]),
            decreases self.channels@.len() - i,
        {
            assert(chan_inv(self.channels@[i as int]));
            if self.channels[i].is_full() {
                assert(chan_full(self.chans()[i as int]));
                return true;
            }
            i = i + 1;
        }
        false
    }
}

impl AnyChannel {
    fn id(&self) -> (r: ChannelId)
        ensures
            r == chan_id(*self),
    {
        match self {
            AnyChannel::Unidirectional(u) => u.id(),
            AnyChannel::Broadcast(b) => b.id(),
        }
    }

    fn send(&mut self, msg: Message) -> (r: Result<(), IpcError>)
        requires
            chan_inv(*old(self)),
        ensures
            chan_inv(*final(self)),
            same_shape(*old(self), *final(self)),
            r == send_outcome(*old(self), msg),
            r is Ok ==> delivered(*old(self), *final(self), msg),
            r is Err ==> *final(self) == *old(self) || (forall|x: AgentId|
                #[trigger] chan_pending(*final(self), x) == chan_pending(*old(self), x)),
    {
        match self {
            AnyChannel::Unidirectional(u) => {
                let ghost u0 = *u;
                assert(*old(self) == AnyChannel::Unidirectional(u0));
                let ghost m0 = msg;
                let r = u.send(msg);
                assert(m0.sender != u0.spec_sender() ==> r == Err::<(), IpcError>(IpcError::InvalidSender));
                assert(r is Ok <==> (m0.sender == u0.spec_sender() && m0.receiver == u0.spec_receiver()
                && u0.pending().len() < u0.spec_capacity()));
                assert(r == send_outcome(AnyChannel::Unidirectional(u0), m0));
                assert(*final(self) == AnyChannel::Unidirectional(*final(u)));
                r
            },
            AnyChannel::Broadcast(b) => {
                let ghost b0 = *b;
                assert(*old(self) == AnyChannel::Broadcast(b0));
                let r = b.send(msg);
                assert(r == send_outcome(AnyChannel::Broadcast(b0), msg));
                assert(*final(self) == AnyChannel::Broadcast(*final(b)));
                r
            },
        }
    }

    fn poll(&mut self, receiver: AgentId) -> (r: Vec<Message>)
        requires
            chan_inv(*old(self)),
        ensures
            chan_inv(*final(self)),
            r@ == chan_pending(*old(self), receiver),
            drained_for(*old(self), *final(self), receiver),
    {
        match self {
            AnyChannel::Unidirectional(u) => {
                let ghost u0 = *u;
                assert(*old(self) == AnyChannel::Unidirectional(u0));
                let r = u.poll(receiver);
                assert(receiver == u0.spec_receiver() ==> r@ == u0.pending());
                assert(receiver != u0.spec_receiver() ==> r@ == Seq::<Message>::empty());
                assert(r@ == chan_pending(AnyChannel::Unidirectional(u0), receiver));
                assert(r@ == chan_pending(*old(self), receiver));
                assert(*final(self) == AnyChannel::Unidirectional(*final(u)));
                r
            },
            AnyChannel::Broadcast(b) => {
                let ghost b0 = *b;
                assert(*old(self) == AnyChannel::Broadcast(b0));
                let r = b.poll(receiver);
                assert(*final(self) == AnyChannel::Broadcast(*final(b)));
                r
            },
        }
    }

    fn pending_count(&self, receiver: AgentId) -> (r: usize)
        requires
            chan_inv(*self),
        ensures
            r == chan_pending(*self, receiver).len(),
    {
        match self {
            AnyChannel::Unidirectional(u) => u.pending_count(receiver),
            AnyChannel::Broadcast(b) => b.pending_count(receiver),
        }
    }

    fn is_full(&self) -> (r: bool)
        requires
            chan_inv(*self),
        ensures
            r == chan_full(*self),
    {
        match self {
            AnyChannel::Unidirectional(u) => u.is_full(),
            AnyChannel::Broadcast(b) => b.is_full(),
        }
    }
}

/// A receiver polls what was sent to it: after a send that the broker
/// accepted, the addressee of a point-to-point channel, and each receiver
/// of a broadcast channel whose receivers are distinct, finds the message
/// (addressed to it) after the messages it already had.
pub proof fn lemma_sent_then_polled(b0: IpcBroker, b1: IpcBroker, id: ChannelId, msg: Message, r: Result<(), IpcError>, k: AgentId)
    requires
        b0.wf(),
        routed_send(b0, b1, id, msg, r),
        r is Ok,
    ensures
        b0.has_channel(id),
        ({
            let i = chan_index(b0.chans(), id);
            let c = b0.chans()[i];
            let n = b1.chans()[i];
            &&& c is Unidirectional ==> chan_pending(n, msg.receiver) == chan_pending(c, msg.receiver).push(msg)
            &&& (c matches AnyChannel::Broadcast(b) && b.spec_receivers().no_duplicates() && b.spec_receivers().contains(k))
                ==> chan_pending(n, k) == chan_pending(c, k).push(readdressed(msg, k))
        }),
{
    let i = chan_index(b0.chans(), id);
    let c = b0.chans()[i];
    let n = b1.chans()[i];
    match (c, n) {
        (AnyChannel::Broadcast(o), AnyChannel::Broadcast(nb)) => {
            if o.spec_receivers().no_duplicates() && o.spec_receivers().contains(k) {
                lemma_chan_index(b0.chans(), id);
                assert(chan_inv(b0.chans()[i]));
                o.lemma_queue_dom();
                assert forall|x: AgentId| #[trigger] o.spec_receivers().contains(x) implies o.queues_view().dom().contains(
                    x,
                ) by {
                    assert(o.spec_receivers().to_set().contains(x));
                }
                lemma_broadcast_once_each(o.queues_view(), o.spec_receivers(), msg, k);
            }
        },
        _ => {},
    }
}

} // verus!
