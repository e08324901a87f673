//! Inter-agent communication: point-to-point pipes and broadcast queues,
//! bounded, routed by a broker.

pub mod broadcast;
pub mod broker;
pub mod channel;
pub mod unidirectional;

pub use broadcast::BroadcastChannel;
pub use broker::IpcBroker;
pub use channel::{Channel, ChannelType, IpcError};
pub use crate::ids::ChannelId;
pub use unidirectional::UnidirectionalChannel;
