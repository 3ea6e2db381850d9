use whisper::identity::{generate_keypair, keypair_to_peer_id};
use whisper::types::{
    status_needs_sync, status_priority, update_applies, Group, Message, MessageContent,
    MessageId, MessageStatus, NodeId, ReceiptType, Recipient,
};

fn make_peer_id() -> NodeId {
    keypair_to_peer_id(&generate_keypair())
}

#[test]
fn create_text_message() {
    let msg = Message::new_text(make_peer_id(), Recipient::Direct(make_peer_id()), "hello".to_string());
    assert!(matches!(msg.content, MessageContent::Text(_)));
    assert!(matches!(msg.status, MessageStatus::Pending));
}

#[test]
fn create_receipt() {
    let msg_id = MessageId { bytes: [5u8; 16] };
    let receipt = Message::new_receipt(make_peer_id(), Recipient::Direct(make_peer_id()), msg_id, ReceiptType::Delivered);
    assert!(matches!(receipt.content, MessageContent::Receipt(_, ReceiptType::Delivered)));
}

#[test]
fn message_has_unique_id() {
    let from = make_peer_id();
    let to = make_peer_id();
    let msg1 = Message::new_text(from.clone(), Recipient::Direct(to.clone()), "a".to_string());
    let msg2 = Message::new_text(from, Recipient::Direct(to), "b".to_string());
    assert_ne!(msg1.id, msg2.id);
}

#[test]
fn group_recipient() {
    let group_id = MessageId { bytes: [9u8; 16] };
    let msg = Message::new_text(make_peer_id(), Recipient::Group(group_id), "hello group".to_string());
    assert!(matches!(msg.to, Recipient::Group(_)));
}

#[test]
fn create_group() {
    let group = Group::new("Test Group".to_string(), vec![1, 2, 3]);
    assert_eq!(group.name, "Test Group");
    assert_eq!(group.symmetric_key, vec![1, 2, 3]);
    assert!(group.members.is_empty());
}

#[test]
fn group_add_member() {
    let mut group = Group::new("Test".to_string(), vec![]);
    let peer = make_peer_id();
    group.add_member(peer.clone());
    assert_eq!(group.members.len(), 1);
    assert!(group.is_member(&peer));
}

#[test]
fn group_add_member_idempotent() {
    let mut group = Group::new("Test".to_string(), vec![]);
    let peer = make_peer_id();
    group.add_member(peer.clone());
    group.add_member(peer);
    assert_eq!(group.members.len(), 1);
}

#[test]
fn group_remove_member() {
    let mut group = Group::new("Test".to_string(), vec![]);
    let peer = make_peer_id();
    group.add_member(peer.clone());
    assert!(group.remove_member(&peer));
    assert!(!group.is_member(&peer));
}

#[test]
fn group_remove_nonexistent() {
    let mut group = Group::new("Test".to_string(), vec![]);
    assert!(!group.remove_member(&make_peer_id()));
}

#[test]
fn status_priorities_follow_the_order() {
    assert_eq!(status_priority(&MessageStatus::Pending), 0);
    assert_eq!(status_priority(&MessageStatus::Sent), 1);
    assert_eq!(status_priority(&MessageStatus::Delivered), 2);
    assert_eq!(status_priority(&MessageStatus::Read), 3);
    assert_eq!(status_priority(&MessageStatus::Failed("x".to_string())), 4);
}

#[test]
fn status_sync_rule() {
    assert!(status_needs_sync(&MessageStatus::Pending));
    assert!(status_needs_sync(&MessageStatus::Sent));
    assert!(!status_needs_sync(&MessageStatus::Delivered));
}

#[test]
fn update_rules() {
    assert!(update_applies(&MessageStatus::Pending, &MessageStatus::Sent));
    assert!(!update_applies(&MessageStatus::Delivered, &MessageStatus::Pending));
    assert!(!update_applies(&MessageStatus::Read, &MessageStatus::Delivered));
    assert!(update_applies(&MessageStatus::Sent, &MessageStatus::Failed("e".to_string())));
    assert!(!update_applies(&MessageStatus::Delivered, &MessageStatus::Failed("e".to_string())));
    assert!(update_applies(&MessageStatus::Failed("e".to_string()), &MessageStatus::Pending));
}
