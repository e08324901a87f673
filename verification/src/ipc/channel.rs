//! Core IPC types: errors, channel kinds and the channel interface.

use vstd::prelude::*;
use crate::{AgentId, Message};
use crate::ids::ChannelId;

verus! {

/// IPC errors.
#[derive(Debug, Clone, Copy, PartialEq, Eq, Structural)]
pub enum IpcError {
    /// Channel buffer is full (backpressure).
    ChannelFull,
    /// Channel does not exist.
    ChannelNotFound,
    /// Agent is not authorized for this operation.
    Unauthorized,
    /// Receiver is not part of this channel.
    InvalidReceiver,
    /// Sender is not the owner of this channel.
    InvalidSender,
}

/// The text of an IPC error.
pub open spec fn ipc_error_text(e: IpcError) -> Seq<char> {
    match e {
        IpcError::ChannelFull => "IPC channel is full"@,
        IpcError::ChannelNotFound => "IPC channel not found"@,
        IpcError::Unauthorized => "unauthorized IPC operation"@,
        IpcError::InvalidReceiver => "receiver not in channel"@,
        IpcError::InvalidSender => "sender not channel owner"@,
    }
}

impl IpcError {
    /// The human-readable text of the error.
    pub fn to_string(&self) -> (s: String)
        ensures
            s@ == ipc_error_text(*self),
    {
        match self {
            IpcError::ChannelFull => String::from_str("IPC channel is full"),
            IpcError::ChannelNotFound => String::from_str("IPC channel not found"),
            IpcError::Unauthorized => String::from_str("unauthorized IPC operation"),
            IpcError::InvalidReceiver => String::from_str("receiver not in channel"),
            IpcError::InvalidSender => String::from_str("sender not channel owner"),
        }
    }
}

/// Type of IPC channel.
#[derive(Debug, Clone, Copy, PartialEq, Eq, Structural)]
pub enum ChannelType {
    /// Point-to-point (one sender to one receiver).
    Unidirectional,
    /// One-to-many broadcast (one sender to several receivers).
    Broadcast,
}

/// Common interface of all channel kinds.
pub trait Channel {
    /// The channel's internal consistency.
    spec fn inv(&self) -> bool;

    /// The channel identifier.
    fn id(&self) -> ChannelId;

    /// The channel kind.
    fn channel_type(&self) -> ChannelType;

    /// The agent allowed to send.
    fn sender(&self) -> AgentId;

    /// Send a message; `ChannelFull` when the buffer is full.
    fn send(&mut self, msg: Message) -> (r: Result<(), IpcError>)
        requires
            old(self).inv(),
        ensures
            final(self).inv(),
    ;

    /// Take all pending messages for a receiver (possibly none).
    fn poll(&mut self, receiver: AgentId) -> (r: Vec<Message>)
        requires
            old(self).inv(),
        ensures
            final(self).inv(),
    ;

    /// Number of pending messages for a receiver.
    fn pending_count(&self, receiver: AgentId) -> usize
        requires
            self.inv(),
    ;

    /// Whether the buffer is full.
    fn is_full(&self) -> bool
        requires
            self.inv(),
    ;

    /// The buffer capacity.
    fn capacity(&self) -> usize;
}

} // verus!
