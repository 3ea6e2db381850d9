use whisper::identity::{generate_keypair, keypair_to_peer_id};
use whisper::sync::{diff_messages, filter_history, merge_messages, needs_sync, HistoryRequest};
use whisper::types::{Message, MessageStatus, NodeId, Recipient};

fn make_peer_id() -> NodeId {
    keypair_to_peer_id(&generate_keypair())
}

fn make_message_at(from: &NodeId, to: &NodeId, text: &str, ts: i64) -> Message {
    let mut msg = Message::new_text(from.clone(), Recipient::Direct(to.clone()), text.to_string());
    msg.timestamp = ts;
    msg
}

const NOW: i64 = 1_700_000_000;

#[test]
fn filter_history_respects_since() {
    let from = make_peer_id();
    let to = make_peer_id();
    let old = make_message_at(&from, &to, "old", NOW - 2 * 3600);
    let new = make_message_at(&from, &to, "new", NOW - 30 * 60);
    let messages = vec![old, new];
    let filtered = filter_history(&messages, NOW - 3600, None);
    assert_eq!(filtered.len(), 1);
}

#[test]
fn filter_history_respects_limit() {
    let from = make_peer_id();
    let to = make_peer_id();
    let messages: Vec<Message> = (0..10).map(|i| make_message_at(&from, &to, &format!("msg{}", i), NOW - 60 * i as i64)).collect();
    let filtered = filter_history(&messages, NOW - 3600, Some(3));
    assert_eq!(filtered.len(), 3);
    let stamps: Vec<i64> = filtered.iter().map(|m| m.timestamp).collect();
    assert_eq!(stamps, vec![NOW - 540, NOW - 480, NOW - 420]);
}

#[test]
fn history_request_holds_bounds() {
    assert_eq!(HistoryRequest::new(5).limit, None);
    assert_eq!(HistoryRequest::with_limit(5, 9).limit, Some(9));
}

#[test]
fn merge_deduplicates_by_id() {
    let msg1 = Message::new_text(make_peer_id(), Recipient::Direct(make_peer_id()), "hello".to_string());
    let msg2 = msg1.clone();
    let merged = merge_messages(vec![msg1], vec![msg2]);
    assert_eq!(merged.len(), 1);
}

#[test]
fn merge_newer_status_wins() {
    let mut local_msg = Message::new_text(make_peer_id(), Recipient::Direct(make_peer_id()), "hello".to_string());
    local_msg.status = MessageStatus::Sent;
    let mut remote_msg = local_msg.clone();
    remote_msg.status = MessageStatus::Read;
    let merged = merge_messages(vec![local_msg], vec![remote_msg]);
    assert!(matches!(merged[0].status, MessageStatus::Read));
}

#[test]
fn merge_keeps_more_final_local_status() {
    let mut local_msg = Message::new_text(make_peer_id(), Recipient::Direct(make_peer_id()), "hello".to_string());
    local_msg.status = MessageStatus::Delivered;
    let mut remote_msg = local_msg.clone();
    remote_msg.status = MessageStatus::Pending;
    let merged = merge_messages(vec![local_msg], vec![remote_msg]);
    assert!(matches!(merged[0].status, MessageStatus::Delivered));
}

#[test]
fn merge_preserves_ordering() {
    let from = make_peer_id();
    let to = make_peer_id();
    let msg1 = make_message_at(&from, &to, "first", NOW - 7200);
    let msg2 = make_message_at(&from, &to, "second", NOW - 3600);
    let msg3 = make_message_at(&from, &to, "third", NOW);
    let merged = merge_messages(vec![msg2.clone()], vec![msg1.clone(), msg3.clone()]);
    assert_eq!(merged.len(), 3);
    assert!(merged[0].timestamp < merged[1].timestamp);
    assert!(merged[1].timestamp < merged[2].timestamp);
}

#[test]
fn needs_sync_pending_and_sent() {
    let from = make_peer_id();
    let to = make_peer_id();
    let mut pending = Message::new_text(from.clone(), Recipient::Direct(to.clone()), "pending".to_string());
    pending.status = MessageStatus::Pending;
    let mut sent = Message::new_text(from.clone(), Recipient::Direct(to.clone()), "sent".to_string());
    sent.status = MessageStatus::Sent;
    let mut delivered = Message::new_text(from, Recipient::Direct(to), "delivered".to_string());
    delivered.status = MessageStatus::Delivered;
    assert!(needs_sync(&pending));
    assert!(needs_sync(&sent));
    assert!(!needs_sync(&delivered));
}

#[test]
fn diff_finds_missing_messages() {
    let from = make_peer_id();
    let to = make_peer_id();
    let msg1 = Message::new_text(from.clone(), Recipient::Direct(to.clone()), "msg1".to_string());
    let msg2 = Message::new_text(from.clone(), Recipient::Direct(to.clone()), "msg2".to_string());
    let msg3 = Message::new_text(from, Recipient::Direct(to), "msg3".to_string());
    let local = vec![msg1.clone(), msg2.clone(), msg3.clone()];
    let remote_ids = vec![msg1.id, msg3.id];
    let diff = diff_messages(&local, &remote_ids);
    assert_eq!(diff.len(), 1);
    assert_eq!(diff[0].id, msg2.id);
}

#[test]
fn empty_merge() {
    let merged = merge_messages(vec![], vec![]);
    assert!(merged.is_empty());
}
