use runtime::ipc::{BroadcastChannel, Channel, ChannelId, ChannelType, IpcBroker, IpcError, UnidirectionalChannel};
use runtime::{AgentId, Message, MessageMetadata};

fn ipc_agent(n: u64) -> AgentId {
    let bytes = n.to_le_bytes();
    let mut uuid_bytes = [0u8; 16];
    uuid_bytes[..8].copy_from_slice(&bytes);
    AgentId::from_bytes(uuid_bytes)
}

fn ipc_message(from: AgentId, to: AgentId, content: &str) -> Message {
    let mut map = serde_json::Map::new();
    map.insert("content".to_string(), serde_json::Value::String(content.to_string()));
    Message {
        sender: from,
        receiver: to,
        message_type: "test".to_string(),
        payload: serde_json::Value::Object(map),
        metadata: MessageMetadata { sent_at: chrono::Utc::now().timestamp_millis(), priority: 0, requires_ack: false },
    }
}

// ---- channel identifiers and errors ----

#[test]
fn test_channel_id_creation() {
    let id1 = ChannelId::new();
    let id2 = ChannelId::new();
    assert_ne!(id1, id2);
}

#[test]
fn test_channel_id_clone_eq() {
    let id1 = ChannelId::new();
    let id2 = id1;
    assert_eq!(id1, id2);
}

#[test]
fn test_ipc_error_display() {
    let err = IpcError::ChannelFull;
    assert!(err.to_string().contains("full"));
}

#[test]
fn ipc_error_messages_are_exact() {
    assert_eq!(IpcError::ChannelNotFound.to_string(), "IPC channel not found");
    assert_eq!(IpcError::ChannelFull.to_string(), "IPC channel is full");
    assert_eq!(IpcError::InvalidSender.to_string(), "sender not channel owner");
    assert_eq!(IpcError::InvalidReceiver.to_string(), "receiver not in channel");
    assert_eq!(IpcError::Unauthorized.to_string(), "unauthorized IPC operation");
}

// ---- unidirectional channels (module-level scenarios) ----

#[test]
fn test_unidirectional_send_and_poll() {
    let sender = ipc_agent(1);
    let receiver = ipc_agent(2);
    let mut channel = UnidirectionalChannel::new(sender, receiver, 10);

    let msg = ipc_message(sender, receiver, "hello");
    assert!(channel.send(msg.clone()).is_ok());

    let received = channel.poll(receiver);
    assert_eq!(received.len(), 1);
    assert_eq!(received[0].payload["content"], "hello");
}

#[test]
fn test_unidirectional_bounded_queue() {
    let sender = ipc_agent(1);
    let receiver = ipc_agent(2);
    let mut channel = UnidirectionalChannel::new(sender, receiver, 2);

    let msg1 = ipc_message(sender, receiver, "msg1");
    let msg2 = ipc_message(sender, receiver, "msg2");
    let msg3 = ipc_message(sender, receiver, "msg3");

    assert!(channel.send(msg1).is_ok());
    assert!(channel.send(msg2).is_ok());
    assert!(matches!(channel.send(msg3), Err(IpcError::ChannelFull)));
}

#[test]
fn test_unidirectional_fifo_order() {
    let sender = ipc_agent(1);
    let receiver = ipc_agent(2);
    let mut channel = UnidirectionalChannel::new(sender, receiver, 10);

    for i in 0..5 {
        let msg = ipc_message(sender, receiver, &format!("msg{}", i));
        channel.send(msg).unwrap();
    }

    let received = channel.poll(receiver);
    assert_eq!(received.len(), 5);
    for (i, msg) in received.iter().enumerate() {
        assert_eq!(msg.payload["content"], format!("msg{}", i));
    }
}

#[test]
fn mod_test_broadcast_send_to_all() {
    let sender = ipc_agent(1);
    let receivers = vec![ipc_agent(2), ipc_agent(3), ipc_agent(4)];
    let mut channel = BroadcastChannel::new(sender, receivers.clone(), 10);

    let msg = ipc_message(sender, receivers[0], "broadcast");
    assert!(channel.send(msg).is_ok());

    for &receiver in &receivers {
        let received = channel.poll(receiver);
        assert_eq!(received.len(), 1);
        assert_eq!(received[0].payload["content"], "broadcast");
    }
}

#[test]
fn mod_test_broadcast_independent_queues() {
    let sender = ipc_agent(1);
    let receiver1 = ipc_agent(2);
    let receiver2 = ipc_agent(3);
    let mut channel = BroadcastChannel::new(sender, vec![receiver1, receiver2], 10);

    let msg = ipc_message(sender, receiver1, "msg");
    channel.send(msg).unwrap();

    let received1 = channel.poll(receiver1);
    assert_eq!(received1.len(), 1);

    let received2 = channel.poll(receiver2);
    assert_eq!(received2.len(), 1);
}

#[test]
fn mod_test_broker_create_p2p_channel() {
    let mut broker = IpcBroker::new();
    let sender = ipc_agent(1);
    let receiver = ipc_agent(2);

    let channel_id = broker.create_p2p_channel(sender, receiver, 10).unwrap();
    assert!(broker.channel_exists(channel_id));
}

#[test]
fn mod_test_broker_create_broadcast_channel() {
    let mut broker = IpcBroker::new();
    let sender = ipc_agent(1);
    let receivers = vec![ipc_agent(2), ipc_agent(3)];

    let channel_id = broker.create_broadcast_channel(sender, receivers, 10).unwrap();
    assert!(broker.channel_exists(channel_id));
}

#[test]
fn mod_test_broker_send_and_poll() {
    let mut broker = IpcBroker::new();
    let sender = ipc_agent(1);
    let receiver = ipc_agent(2);

    let channel_id = broker.create_p2p_channel(sender, receiver, 10).unwrap();
    let msg = ipc_message(sender, receiver, "hello");

    assert!(broker.send(channel_id, msg).is_ok());

    let received = broker.poll(channel_id, receiver);
    assert_eq!(received.len(), 1);
}

#[test]
fn test_broker_channel_not_found() {
    let mut broker = IpcBroker::new();
    let sender = ipc_agent(1);
    let receiver = ipc_agent(2);
    let msg = ipc_message(sender, receiver, "hello");

    let fake_id = ChannelId::new();
    assert!(matches!(broker.send(fake_id, msg), Err(IpcError::ChannelNotFound)));
}

// ---- unidirectional channels ----

#[test]
fn test_unidirectional_creation() {
    let sender = ipc_agent(1);
    let receiver = ipc_agent(2);
    let channel = UnidirectionalChannel::new(sender, receiver, 10);

    assert_eq!(channel.sender(), sender);
    assert_eq!(channel.capacity(), 10);
    assert_eq!(channel.pending_count(receiver), 0);
    assert!(!channel.is_full());
    assert_eq!(channel.channel_type(), ChannelType::Unidirectional);
}

#[test]
fn test_unidirectional_send_success() {
    let sender = ipc_agent(1);
    let receiver = ipc_agent(2);
    let mut channel = UnidirectionalChannel::new(sender, receiver, 10);

    let msg = ipc_message(sender, receiver, "hello");
    assert!(channel.send(msg).is_ok());
    assert_eq!(channel.pending_count(receiver), 1);
}

#[test]
fn test_unidirectional_send_wrong_sender() {
    let sender = ipc_agent(1);
    let receiver = ipc_agent(2);
    let wrong_sender = ipc_agent(3);
    let mut channel = UnidirectionalChannel::new(sender, receiver, 10);

    let msg = ipc_message(wrong_sender, receiver, "hello");
    assert!(matches!(channel.send(msg), Err(IpcError::InvalidSender)));
}

#[test]
fn test_unidirectional_send_wrong_receiver() {
    let sender = ipc_agent(1);
    let receiver = ipc_agent(2);
    let wrong_receiver = ipc_agent(3);
    let mut channel = UnidirectionalChannel::new(sender, receiver, 10);

    let msg = ipc_message(sender, wrong_receiver, "hello");
    assert!(matches!(channel.send(msg), Err(IpcError::InvalidReceiver)));
}

#[test]
fn test_unidirectional_poll_empty() {
    let sender = ipc_agent(1);
    let receiver = ipc_agent(2);
    let mut channel = UnidirectionalChannel::new(sender, receiver, 10);

    let messages = channel.poll(receiver);
    assert!(messages.is_empty());
}

#[test]
fn test_unidirectional_poll_drains_queue() {
    let sender = ipc_agent(1);
    let receiver = ipc_agent(2);
    let mut channel = UnidirectionalChannel::new(sender, receiver, 10);

    for i in 0..3 {
        let msg = ipc_message(sender, receiver, &format!("msg{}", i));
        channel.send(msg).unwrap();
    }

    let messages = channel.poll(receiver);
    assert_eq!(messages.len(), 3);
    assert_eq!(channel.pending_count(receiver), 0);
}

#[test]
fn test_unidirectional_poll_wrong_receiver() {
    let sender = ipc_agent(1);
    let receiver = ipc_agent(2);
    let wrong_receiver = ipc_agent(3);
    let mut channel = UnidirectionalChannel::new(sender, receiver, 10);

    let msg = ipc_message(sender, receiver, "hello");
    channel.send(msg).unwrap();

    let messages = channel.poll(wrong_receiver);
    assert!(messages.is_empty());
    assert_eq!(channel.pending_count(receiver), 1);
}

#[test]
fn unidirectional_full_channel_keeps_its_messages() {
    let sender = ipc_agent(1);
    let receiver = ipc_agent(2);
    let mut channel = UnidirectionalChannel::new(sender, receiver, 1);
    channel.send(ipc_message(sender, receiver, "first")).unwrap();
    assert!(channel.is_full());
    assert!(matches!(channel.send(ipc_message(sender, receiver, "second")), Err(IpcError::ChannelFull)));
    let got = channel.poll(receiver);
    assert_eq!(got.len(), 1);
    assert_eq!(got[0].payload["content"], "first");
    assert!(!channel.is_full());
}

// ---- broadcast channels ----

#[test]
fn test_broadcast_creation() {
    let sender = ipc_agent(1);
    let receivers = vec![ipc_agent(2), ipc_agent(3)];
    let channel = BroadcastChannel::new(sender, receivers.clone(), 10);

    assert_eq!(channel.sender(), sender);
    assert_eq!(channel.receivers(), receivers.as_slice());
    assert_eq!(channel.capacity(), 10);
    assert_eq!(channel.channel_type(), ChannelType::Broadcast);
}

#[test]
fn broadcast_test_broadcast_send_to_all() {
    let sender = ipc_agent(1);
    let receiver1 = ipc_agent(2);
    let receiver2 = ipc_agent(3);
    let receivers = vec![receiver1, receiver2];
    let mut channel = BroadcastChannel::new(sender, receivers, 10);

    let msg = ipc_message(sender, receiver1, "broadcast");
    assert!(channel.send(msg).is_ok());

    assert_eq!(channel.pending_count(receiver1), 1);
    assert_eq!(channel.pending_count(receiver2), 1);
}

#[test]
fn broadcast_test_broadcast_independent_queues() {
    let sender = ipc_agent(1);
    let receiver1 = ipc_agent(2);
    let receiver2 = ipc_agent(3);
    let receivers = vec![receiver1, receiver2];
    let mut channel = BroadcastChannel::new(sender, receivers, 10);

    let msg = ipc_message(sender, receiver1, "msg");
    channel.send(msg).unwrap();

    let messages1 = channel.poll(receiver1);
    assert_eq!(messages1.len(), 1);
    assert_eq!(channel.pending_count(receiver1), 0);

    assert_eq!(channel.pending_count(receiver2), 1);
    let messages2 = channel.poll(receiver2);
    assert_eq!(messages2.len(), 1);
}

#[test]
fn test_broadcast_backpressure() {
    let sender = ipc_agent(1);
    let receiver1 = ipc_agent(2);
    let receiver2 = ipc_agent(3);
    let receivers = vec![receiver1, receiver2];
    let mut channel = BroadcastChannel::new(sender, receivers, 2);

    for i in 0..2 {
        let msg = ipc_message(sender, receiver1, &format!("msg{}", i));
        channel.send(msg).unwrap();
    }

    let msg = ipc_message(sender, receiver1, "msg2");
    assert!(matches!(channel.send(msg), Err(IpcError::ChannelFull)));
}

#[test]
fn test_broadcast_wrong_sender() {
    let sender = ipc_agent(1);
    let wrong_sender = ipc_agent(99);
    let receiver = ipc_agent(2);
    let receivers = vec![receiver];
    let mut channel = BroadcastChannel::new(sender, receivers, 10);

    let msg = ipc_message(wrong_sender, receiver, "hello");
    assert!(matches!(channel.send(msg), Err(IpcError::InvalidSender)));
}

#[test]
fn test_broadcast_has_receiver() {
    let sender = ipc_agent(1);
    let receiver1 = ipc_agent(2);
    let receiver2 = ipc_agent(3);
    let not_receiver = ipc_agent(99);
    let receivers = vec![receiver1, receiver2];
    let channel = BroadcastChannel::new(sender, receivers, 10);

    assert!(channel.has_receiver(receiver1));
    assert!(channel.has_receiver(receiver2));
    assert!(!channel.has_receiver(not_receiver));
}

#[test]
fn broadcast_delivers_one_copy_to_each_receiver_in_order() {
    let sender = ipc_agent(1);
    let r1 = ipc_agent(2);
    let r2 = ipc_agent(3);
    let mut channel = BroadcastChannel::new(sender, vec![r1, r2], 5);
    channel.send(ipc_message(sender, r1, "a")).unwrap();
    channel.send(ipc_message(sender, r2, "b")).unwrap();
    for r in [r1, r2] {
        let got = channel.poll(r);
        assert_eq!(got.len(), 2);
        assert_eq!(got[0].payload["content"], "a");
        assert_eq!(got[1].payload["content"], "b");
    }
    assert!(channel.poll(ipc_agent(7)).is_empty());
}

// ---- broker ----

#[test]
fn test_broker_creation() {
    let broker = IpcBroker::new();
    assert_eq!(broker.channel_count(), 0);
}

#[test]
fn broker_test_broker_create_p2p_channel() {
    let mut broker = IpcBroker::new();
    let sender = ipc_agent(1);
    let receiver = ipc_agent(2);

    let channel_id = broker.create_p2p_channel(sender, receiver, 10).unwrap();
    assert!(broker.channel_exists(channel_id));
    assert_eq!(broker.channel_count(), 1);
}

#[test]
fn broker_test_broker_create_broadcast_channel() {
    let mut broker = IpcBroker::new();
    let sender = ipc_agent(1);
    let receivers = vec![ipc_agent(2), ipc_agent(3)];

    let channel_id = broker.create_broadcast_channel(sender, receivers, 10).unwrap();
    assert!(broker.channel_exists(channel_id));
    assert_eq!(broker.channel_count(), 1);
}

#[test]
fn test_broker_destroy_channel() {
    let mut broker = IpcBroker::new();
    let sender = ipc_agent(1);
    let receiver = ipc_agent(2);

    let channel_id = broker.create_p2p_channel(sender, receiver, 10).unwrap();
    assert!(broker.channel_exists(channel_id));

    assert!(broker.destroy_channel(channel_id));
    assert!(!broker.channel_exists(channel_id));
    assert_eq!(broker.channel_count(), 0);
}

#[test]
fn broker_test_broker_send_and_poll() {
    let mut broker = IpcBroker::new();
    let sender = ipc_agent(1);
    let receiver = ipc_agent(2);

    let channel_id = broker.create_p2p_channel(sender, receiver, 10).unwrap();
    let msg = ipc_message(sender, receiver, "hello");

    assert!(broker.send(channel_id, msg).is_ok());
    assert_eq!(broker.pending_count(receiver), 1);

    let messages = broker.poll(channel_id, receiver);
    assert_eq!(messages.len(), 1);
    assert_eq!(messages[0].payload["content"], "hello");
}

#[test]
fn test_broker_send_channel_not_found() {
    let mut broker = IpcBroker::new();
    let sender = ipc_agent(1);
    let receiver = ipc_agent(2);
    let msg = ipc_message(sender, receiver, "hello");

    let fake_id = ChannelId::new();
    assert!(matches!(broker.send(fake_id, msg), Err(IpcError::ChannelNotFound)));
}

#[test]
fn test_broker_poll_all() {
    let mut broker = IpcBroker::new();
    let sender1 = ipc_agent(1);
    let sender2 = ipc_agent(2);
    let receiver = ipc_agent(3);

    let chan1 = broker.create_p2p_channel(sender1, receiver, 10).unwrap();
    let chan2 = broker.create_p2p_channel(sender2, receiver, 10).unwrap();

    let msg1 = ipc_message(sender1, receiver, "from sender1");
    let msg2 = ipc_message(sender2, receiver, "from sender2");

    broker.send(chan1, msg1).unwrap();
    broker.send(chan2, msg2).unwrap();

    assert_eq!(broker.pending_count(receiver), 2);

    let all_messages = broker.poll_all(receiver);
    assert_eq!(all_messages.len(), 2);
}

#[test]
fn test_broker_channel_ids() {
    let mut broker = IpcBroker::new();
    let sender = ipc_agent(1);
    let receiver = ipc_agent(2);

    let id1 = broker.create_p2p_channel(sender, receiver, 10).unwrap();
    let id2 = broker.create_broadcast_channel(sender, vec![receiver], 10).unwrap();

    let ids = broker.channel_ids();
    assert_eq!(ids.len(), 2);
    assert!(ids.contains(&id1));
    assert!(ids.contains(&id2));
}

#[test]
fn test_broker_has_full_channels() {
    let mut broker = IpcBroker::new();
    let sender = ipc_agent(1);
    let receiver = ipc_agent(2);

    let channel_id = broker.create_p2p_channel(sender, receiver, 2).unwrap();

    assert!(!broker.has_full_channels());

    for i in 0..2 {
        let msg = ipc_message(sender, receiver, &format!("msg{}", i));
        broker.send(channel_id, msg).unwrap();
    }

    assert!(broker.has_full_channels());
}

#[test]
fn broker_poll_all_keeps_creation_order_and_drains() {
    let mut broker = IpcBroker::new();
    let s1 = ipc_agent(1);
    let s2 = ipc_agent(2);
    let r = ipc_agent(3);
    let c1 = broker.create_p2p_channel(s1, r, 4).unwrap();
    let c2 = broker.create_broadcast_channel(s2, vec![r, s1], 4).unwrap();
    broker.send(c2, ipc_message(s2, r, "second")).unwrap();
    broker.send(c1, ipc_message(s1, r, "first")).unwrap();
    let all = broker.poll_all(r);
    assert_eq!(all.len(), 2);
    assert_eq!(all[0].payload["content"], "first");
    assert_eq!(all[1].payload["content"], "second");
    assert_eq!(broker.pending_count(r), 0);
    assert_eq!(broker.pending_count(s1), 1);
}

#[test]
fn broker_wrong_sender_is_refused_and_nothing_queued() {
    let mut broker = IpcBroker::new();
    let s = ipc_agent(1);
    let r = ipc_agent(2);
    let c = broker.create_p2p_channel(s, r, 4).unwrap();
    assert!(matches!(broker.send(c, ipc_message(r, r, "x")), Err(IpcError::InvalidSender)));
    assert!(matches!(broker.send(c, ipc_message(s, s, "x")), Err(IpcError::InvalidReceiver)));
    assert_eq!(broker.pending_count(r), 0);
}
