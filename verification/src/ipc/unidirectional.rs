//! Point-to-point channel (pipe-like): one sender, one receiver, FIFO,
//! bounded buffer.

use vstd::prelude::*;
use crate::{AgentId, Message};
use crate::ids::ChannelId;
use super::channel::{Channel, ChannelType, IpcError};

verus! {

/// Point-to-point unidirectional channel.
///
/// One sender, one receiver, FIFO order, bounded buffer: when the buffer is
/// full, `send` returns `IpcError::ChannelFull`.
#[derive(Debug)]
pub struct UnidirectionalChannel {
    id: ChannelId,
    sender: AgentId,
    receiver: AgentId,
    queue: Vec<Message>,
    capacity: usize,
}

impl UnidirectionalChannel {
    #[verifier::type_invariant]
    spec fn bounded(self) -> bool {
        self.queue@.len() <= self.capacity
    }

    /// The channel identifier.
    pub closed spec fn spec_id(self) -> ChannelId {
        self.id
    }

    /// The agent allowed to send.
    pub closed spec fn spec_sender(self) -> AgentId {
        self.sender
    }

    /// The agent the messages are for.
    pub closed spec fn spec_receiver(self) -> AgentId {
        self.receiver
    }

    /// The buffer capacity.
    pub closed spec fn spec_capacity(self) -> usize {
        self.capacity
    }

    /// The pending messages, oldest first.
    pub closed spec fn pending(self) -> Seq<Message> {
        self.queue@
    }

    /// Create a channel with an empty buffer and a fresh identifier.
    pub fn new(sender: AgentId, receiver: AgentId, capacity: usize) -> (c: Self)
        ensures
            c.spec_sender() == sender,
            c.spec_receiver() == receiver,
            c.spec_capacity() == capacity,
            c.pending().len() == 0,
    {
        UnidirectionalChannel { id: ChannelId::new(), sender, receiver, queue: Vec::new(), capacity }
    }
}

impl Channel for UnidirectionalChannel {
    open spec fn inv(&self) -> bool {
        true
    }

    fn id(&self) -> (r: ChannelId)
        ensures
            r == self.spec_id(),
    {
        self.id
    }

    fn channel_type(&self) -> (r: ChannelType)
        ensures
            r == ChannelType::Unidirectional,
    {
        ChannelType::Unidirectional
    }

    fn sender(&self) -> (r: AgentId)
        ensures
            r == self.spec_sender(),
    {
        self.sender
    }

    /// Checks, in order: the sender, the receiver, the capacity; appends
    /// the message at the back when all pass.
    fn send(&mut self, msg: Message) -> (r: Result<(), IpcError>)
        ensures
            final(self).spec_id() == old(self).spec_id(),
            final(self).spec_sender() == old(self).spec_sender(),
            final(self).spec_receiver() == old(self).spec_receiver(),
            final(self).spec_capacity() == old(self).spec_capacity(),
            msg.sender != old(self).spec_sender() ==> r == Err::<(), IpcError>(IpcError::InvalidSender),
            msg.sender == old(self).spec_sender() && msg.receiver != old(self).spec_receiver()
                ==> r == Err::<(), IpcError>(IpcError::InvalidReceiver),
            msg.sender == old(self).spec_sender() && msg.receiver == old(self).spec_receiver()
                && old(self).pending().len() >= old(self).spec_capacity()
                ==> r == Err::<(), IpcError>(IpcError::ChannelFull),
            r == Ok::<(), IpcError>(()) <==> (msg.sender == old(self).spec_sender() && msg.receiver == old(self).spec_receiver()
                && old(self).pending().len() < old(self).spec_capacity()),
            r is Ok ==> final(self).pending() == old(self).pending().push(msg),
            r is Err ==> final(self).pending() == old(self).pending(),
    {
        proof {
            use_type_invariant(&*self);
        }
        if msg.sender != self.sender {
            return Err(IpcError::InvalidSender);
        }
        if msg.receiver != self.receiver {
            return Err(IpcError::InvalidReceiver);
        }
        if self.queue.len() >= self.capacity {
            return Err(IpcError::ChannelFull);
        }
        let mut q: Vec<Message> = Vec::new();
        std::mem::swap(&mut self.queue, &mut q);
        q.push(msg);
        self.queue = q;
        Ok(())
    }

    /// The designated receiver takes every pending message, oldest first;
    /// any other agent gets nothing and the buffer is left as it was.
    fn poll(&mut self, receiver: AgentId) -> (r: Vec<Message>)
        ensures
            final(self).spec_id() == old(self).spec_id(),
            final(self).spec_sender() == old(self).spec_sender(),
            final(self).spec_receiver() == old(self).spec_receiver(),
            final(self).spec_capacity() == old(self).spec_capacity(),
            receiver == old(self).spec_receiver() ==> r@ == old(self).pending()
                && final(self).pending() == Seq::<Message>::empty(),
            receiver != old(self).spec_receiver() ==> r@ == Seq::<Message>::empty() && final(self).pending()
                == old(self).pending(),
    {
        if receiver != self.receiver {
            let v: Vec<Message> = Vec::new();
            assert(v@ =~= Seq::<Message>::empty());
            return v;
        }
        let mut taken: Vec<Message> = Vec::new();
        std::mem::swap(&mut self.queue, &mut taken);
        assert(self.queue@ =~= Seq::<Message>::empty());
        taken
    }

    fn pending_count(&self, receiver: AgentId) -> (r: usize)
        ensures
            receiver == self.spec_receiver() ==> r == self.pending().len(),
            receiver != self.spec_receiver() ==> r == 0,
    {
        if receiver != self.receiver {
            return 0;
        }
        self.queue.len()
    }

    fn is_full(&self) -> (r: bool)
        ensures
            r == (self.pending().len() >= self.spec_capacity()),
            r ==> self.pending().len() == self.spec_capacity(),
    {
        proof {
            use_type_invariant(self);
        }
        self.queue.len() >= self.capacity
    }

    fn capacity(&self) -> (r: usize)
        ensures
            r == self.spec_capacity(),
    {
        self.capacity
    }
}

} // verus!
