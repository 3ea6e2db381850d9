use whisper::crypto::{generate_group_key, keypair_to_encryption_keys};
use whisper::engine::{Action, Engine, EngineError, PeerState};
use whisper::identity::{generate_keypair, keypair_to_peer_id, Keypair};
use whisper::network::NodeEvent;
use whisper::store::Store;
use whisper::types::{Contact, Group, MessageContent, MessageStatus, NodeId, ReceiptType, TrustLevel};
use whisper::wire::create_receipt;

struct Node {
    keys: Keypair,
    id: NodeId,
    engine: Engine,
}

fn node() -> Node {
    let keys = generate_keypair();
    let id = keypair_to_peer_id(&keys);
    let (pk, sk) = keypair_to_encryption_keys(&keys.seed()).unwrap();
    let engine = Engine::new(Store::new(), id.clone(), pk, sk);
    Node { keys, id, engine }
}

fn restart(n: Node) -> Node {
    let old = n.engine.into_store();
    let mut store = Store::new();
    for c in old.list_contacts() {
        store.upsert_contact(c).unwrap();
    }
    for g in old.list_groups() {
        store.create_group(g).unwrap();
    }
    for m in old.messages() {
        store.insert_message(m).unwrap();
    }
    for p in old.pending_entries() {
        store.restore_pending(p);
    }
    let (pk, sk) = keypair_to_encryption_keys(&n.keys.seed()).unwrap();
    Node { engine: Engine::new(store, n.id.clone(), pk, sk), keys: n.keys, id: n.id }
}

fn add_contact(a: &mut Node, b: &Node, alias: &str) {
    let mut store = std::mem::replace(&mut a.engine, Engine::new(Store::new(), a.id.clone(), vec![], vec![])).into_store();
    store.upsert_contact(Contact::new(b.id.clone(), alias.to_string(), b.keys.public_key())).unwrap();
    let (pk, sk) = keypair_to_encryption_keys(&a.keys.seed()).unwrap();
    a.engine = Engine::new(store, a.id.clone(), pk, sk);
}

fn hand_over(n: &mut Node, actions: &[Action]) {
    for a in actions {
        match a {
            Action::Send { msg_id, .. } => {
                n.engine.on_handed_over(msg_id);
            }
        }
    }
}

fn payloads(actions: &[Action]) -> Vec<Vec<u8>> {
    actions.iter().map(|a| match a {
        Action::Send { payload, .. } => payload.clone(),
    }).collect()
}

fn texts_from(n: &Node, peer: &NodeId) -> Vec<String> {
    let mut out: Vec<String> = n
        .engine
        .store()
        .get_messages_with_peer(peer, 100)
        .into_iter()
        .filter_map(|m| match m.content {
            MessageContent::Text(t) if m.from == *peer => Some(t),
            _ => None,
        })
        .collect();
    out.reverse();
    out
}

#[test]
fn contact_lifecycle_scenario() {
    let mut a = node();
    assert!(a.engine.store().list_contacts().is_empty());
    let b = node();
    add_contact(&mut a, &b, "alice");
    let listed: Vec<(String, TrustLevel)> = a.engine.store().list_contacts().into_iter().map(|c| (c.alias, c.trust_level)).collect();
    assert_eq!(listed, vec![("alice".to_string(), TrustLevel::Unknown)]);
    assert_eq!(a.engine.peer_state(&b.id), PeerState::Offline);
    let mut store = a.engine.into_store();
    assert!(store.set_trust_level(&b.id, TrustLevel::Trusted));
    assert_eq!(store.get_contact_by_alias("alice").unwrap().trust_level, TrustLevel::Trusted);
    assert!(store.set_trust_level(&b.id, TrustLevel::Blocked));
    assert_eq!(store.get_contact_by_alias("alice").unwrap().trust_level, TrustLevel::Blocked);
}

#[test]
fn offline_message_survives_restart_scenario() {
    let mut a = node();
    let mut b = node();
    add_contact(&mut a, &b, "bob");
    let (_id, actions) = a.engine.submit_direct(&b.id, "hi".to_string(), 100).unwrap();
    assert!(actions.is_empty());
    let mut a = restart(a);
    let sent = a.engine.handle_event(NodeEvent::PeerConnected(b.id.clone()), 200);
    assert_eq!(sent.len(), 1);
    assert_eq!(a.engine.store().get_pending_for_peer(&b.id).len(), 1);
    hand_over(&mut a, &sent);
    assert!(a.engine.store().get_pending_for_peer(&b.id).is_empty());
    for p in payloads(&sent) {
        b.engine.on_received(&a.id, &p, 201);
    }
    assert_eq!(texts_from(&b, &a.id), vec!["hi".to_string()]);
}

#[test]
fn flush_keeps_submit_order_scenario() {
    let mut a = node();
    let mut b = node();
    add_contact(&mut a, &b, "bob");
    for (i, t) in ["m1", "m2", "m3"].iter().enumerate() {
        let (_id, actions) = a.engine.submit_direct(&b.id, t.to_string(), 10 + i as i64).unwrap();
        assert!(actions.is_empty());
    }
    let sent = a.engine.on_connected(&b.id, 20);
    assert_eq!(sent.len(), 3);
    let queued: Vec<Vec<u8>> = a.engine.store().get_pending_for_peer(&b.id).into_iter().map(|(_, p)| p).collect();
    assert_eq!(queued, payloads(&sent));
    hand_over(&mut a, &sent);
    assert!(a.engine.store().get_pending_for_peer(&b.id).is_empty());
    for (i, p) in payloads(&sent).iter().enumerate() {
        b.engine.on_received(&a.id, p, 30 + i as i64);
    }
    assert_eq!(texts_from(&b, &a.id), vec!["m1", "m2", "m3"]);
    let stamps: Vec<i64> = b.engine.store().messages().iter().filter(|m| m.from == a.id).map(|m| m.timestamp).collect();
    assert!(stamps.windows(2).all(|w| w[0] <= w[1]));
}

#[test]
fn cleartext_when_key_unknown() {
    let mut a = node();
    let b = node();
    let mut store = a.engine.into_store();
    store.upsert_contact(Contact::new(b.id.clone(), "bob".to_string(), vec![])).unwrap();
    let (pk, sk) = keypair_to_encryption_keys(&a.keys.seed()).unwrap();
    a.engine = Engine::new(store, a.id.clone(), pk, sk);
    a.engine.submit_direct(&b.id, "plain".to_string(), 1).unwrap();
    let sent = a.engine.on_connected(&b.id, 2);
    assert_eq!(payloads(&sent), vec![b"plain".to_vec()]);
}

#[test]
fn online_peer_gets_bytes_at_once() {
    let mut a = node();
    let b = node();
    add_contact(&mut a, &b, "bob");
    a.engine.on_connected(&b.id, 1);
    assert_eq!(a.engine.peer_state(&b.id), PeerState::Online);
    let (id, actions) = a.engine.submit_direct(&b.id, "now".to_string(), 2).unwrap();
    assert_eq!(actions.len(), 1);
    assert_eq!(a.engine.store().get_pending_for_peer(&b.id).len(), 1);
    assert!(a.engine.on_handed_over(&id));
    assert!(a.engine.store().get_pending_for_peer(&b.id).is_empty());
    a.engine.on_disconnected(&b.id);
    assert_eq!(a.engine.peer_state(&b.id), PeerState::Offline);
}

#[test]
fn status_goes_pending_sent_delivered_scenario() {
    let mut a = node();
    let b = node();
    add_contact(&mut a, &b, "bob");
    let (id, _) = a.engine.submit_direct(&b.id, "x".to_string(), 1).unwrap();
    assert!(matches!(a.engine.store().get_message(&id).unwrap().status, MessageStatus::Pending));
    a.engine.on_handed_over(&id);
    assert!(matches!(a.engine.store().get_message(&id).unwrap().status, MessageStatus::Sent));
    let receipt = create_receipt(&id, ReceiptType::Delivered);
    let acts = a.engine.on_received(&b.id, &receipt, 3);
    assert!(acts.is_empty());
    assert!(matches!(a.engine.store().get_message(&id).unwrap().status, MessageStatus::Delivered));
    let mut store = a.engine.into_store();
    assert!(!store.update_message_status(&id, MessageStatus::Pending));
    assert!(matches!(store.get_message(&id).unwrap().status, MessageStatus::Delivered));
}

#[test]
fn inbound_text_is_answered_with_receipt() {
    let mut a = node();
    let mut b = node();
    add_contact(&mut a, &b, "bob");
    add_contact(&mut b, &a, "alice");
    b.engine.on_connected(&a.id, 1);
    a.engine.submit_direct(&b.id, "ping".to_string(), 2).unwrap();
    let sent = a.engine.on_connected(&b.id, 3);
    let replies = b.engine.on_received(&a.id, &payloads(&sent)[0], 4);
    assert_eq!(replies.len(), 1);
    let before = a.engine.store().messages().len();
    a.engine.on_received(&b.id, &payloads(&replies)[0], 5);
    assert_eq!(a.engine.store().messages().len(), before);
}

#[test]
fn blocked_peer_is_rejected_and_dropped() {
    let mut a = node();
    let b = node();
    add_contact(&mut a, &b, "bob");
    let mut store = a.engine.into_store();
    store.set_trust_level(&b.id, TrustLevel::Blocked);
    let (pk, sk) = keypair_to_encryption_keys(&a.keys.seed()).unwrap();
    a.engine = Engine::new(store, a.id.clone(), pk, sk);
    assert_eq!(a.engine.peer_state(&b.id), PeerState::Dropped);
    assert!(matches!(a.engine.submit_direct(&b.id, "no".to_string(), 1), Err(EngineError::Blocked)));
    let before = a.engine.store().messages().len();
    assert!(a.engine.on_received(&b.id, b"hello", 2).is_empty());
    assert_eq!(a.engine.store().messages().len(), before);
    assert!(a.engine.on_connected(&b.id, 3).is_empty());
}

#[test]
fn submit_to_unknown_contact_fails() {
    let mut a = node();
    let stranger = node();
    assert!(matches!(a.engine.submit_direct(&stranger.id, "hello".to_string(), 1), Err(EngineError::NotFound)));
    assert_eq!(a.engine.peer_state(&stranger.id), PeerState::Unknown);
}

#[test]
fn group_invite_and_chat_scenario() {
    let mut a = node();
    let mut b = node();
    add_contact(&mut a, &b, "bob");
    let group = Group::new("g".to_string(), generate_group_key());
    let gid = group.id;
    let mut store = a.engine.into_store();
    store.create_group(group).unwrap();
    let (pk, sk) = keypair_to_encryption_keys(&a.keys.seed()).unwrap();
    a.engine = Engine::new(store, a.id.clone(), pk, sk);
    a.engine.invite(&gid, &b.id, 1).unwrap();
    let invite = a.engine.on_connected(&b.id, 2);
    assert_eq!(invite.len(), 1);
    let frame = payloads(&invite)[0].clone();
    assert!(frame.starts_with(b"GROUP_INVITE:g:"));
    b.engine.on_received(&a.id, &frame, 3);
    let joined = b.engine.store().get_group(&gid).unwrap();
    assert_eq!(joined.name, "g");
    assert_eq!(joined.symmetric_key, a.engine.store().get_group(&gid).unwrap().symmetric_key);
    assert_eq!(joined.members, vec![a.id.clone()]);
    let (_id, actions) = a.engine.submit_group(&gid, "hello group".to_string(), 4).unwrap();
    assert_eq!(actions.len(), 1);
    b.engine.on_received(&a.id, &payloads(&actions)[0], 5);
    assert!(b.engine.store().messages().iter().any(|m| matches!(&m.content, MessageContent::Text(t) if t == "hello group")));
}

#[test]
fn group_submit_skips_self_and_queues_per_member() {
    let mut a = node();
    let b = node();
    let c = node();
    let mut group = Group::new("team".to_string(), generate_group_key());
    group.add_member(a.id.clone());
    group.add_member(b.id.clone());
    group.add_member(c.id.clone());
    let gid = group.id;
    let mut store = a.engine.into_store();
    store.create_group(group).unwrap();
    let (pk, sk) = keypair_to_encryption_keys(&a.keys.seed()).unwrap();
    a.engine = Engine::new(store, a.id.clone(), pk, sk);
    let (_id, actions) = a.engine.submit_group(&gid, "hi".to_string(), 1).unwrap();
    assert!(actions.is_empty());
    assert_eq!(a.engine.store().get_all_pending().len(), 2);
    assert!(a.engine.store().get_pending_for_peer(&a.id).is_empty());
    assert!(matches!(a.engine.submit_group(&whisper::types::MessageId { bytes: [0; 16] }, "x".to_string(), 2), Err(EngineError::NotFound)));
}

#[test]
fn submit_with_logged_id_is_refused() {
    let mut a = node();
    let b = node();
    add_contact(&mut a, &b, "bob");
    let (id, _) = a.engine.submit_direct(&b.id, "one".to_string(), 1).unwrap();
    let before = a.engine.store().get_all_pending().len();
    assert!(matches!(
        a.engine.submit_direct_as(id, &b.id, "two".to_string(), 2),
        Err(EngineError::Store(whisper::store::StoreError::AlreadyExists))
    ));
    assert_eq!(a.engine.store().get_all_pending().len(), before);
}

#[test]
fn inbound_text_with_logged_id_changes_nothing() {
    let mut a = node();
    let b = node();
    add_contact(&mut a, &b, "bob");
    let (id, _) = a.engine.submit_direct(&b.id, "mine".to_string(), 1).unwrap();
    let rid = whisper::types::MessageId { bytes: [7; 16] };
    let logged = a.engine.store().messages().len();
    let pending = a.engine.store().get_all_pending().len();
    assert!(a.engine.on_received_as(&b.id, b"plain text", 2, id, rid).is_empty());
    assert_eq!(a.engine.store().messages().len(), logged);
    assert_eq!(a.engine.store().get_all_pending().len(), pending);
}

#[test]
fn failed_send_keeps_entry_and_counts() {
    let mut a = node();
    let b = node();
    add_contact(&mut a, &b, "bob");
    let (id, _) = a.engine.submit_direct(&b.id, "retry me".to_string(), 1).unwrap();
    let sent = a.engine.on_connected(&b.id, 2);
    assert_eq!(sent.len(), 1);
    assert!(a.engine.on_send_failed(&id));
    assert_eq!(a.engine.store().pending_entries()[0].attempts, 1);
    let again = a.engine.on_connected(&b.id, 3);
    assert_eq!(payloads(&again), payloads(&sent));
}

#[test]
fn unusable_key_falls_back_to_clear_and_is_recorded() {
    let mut a = node();
    let b = node();
    let mut store = a.engine.into_store();
    store.upsert_contact(Contact::new(b.id.clone(), "bob".to_string(), vec![1, 2, 3])).unwrap();
    let (pk, sk) = keypair_to_encryption_keys(&a.keys.seed()).unwrap();
    a.engine = Engine::new(store, a.id.clone(), pk, sk);
    let (id, _) = a.engine.submit_direct(&b.id, "oops".to_string(), 1).unwrap();
    assert_eq!(a.engine.clear_fallbacks(), vec![id]);
    let sent = a.engine.on_connected(&b.id, 2);
    assert_eq!(payloads(&sent), vec![b"oops".to_vec()]);
}

#[test]
fn inbound_group_text_is_logged_to_the_group() {
    let mut a = node();
    let mut b = node();
    let key = generate_group_key();
    let mut ga = Group::new("g".to_string(), key.clone());
    ga.add_member(b.id.clone());
    let gid = ga.id;
    let mut gb = ga.clone();
    gb.members = vec![a.id.clone()];
    let mut sa = a.engine.into_store();
    sa.create_group(ga).unwrap();
    let (pk, sk) = keypair_to_encryption_keys(&a.keys.seed()).unwrap();
    a.engine = Engine::new(sa, a.id.clone(), pk, sk);
    let mut sb = b.engine.into_store();
    sb.create_group(gb).unwrap();
    let (pk, sk) = keypair_to_encryption_keys(&b.keys.seed()).unwrap();
    b.engine = Engine::new(sb, b.id.clone(), pk, sk);
    a.engine.submit_group(&gid, "to all".to_string(), 1).unwrap();
    let sent = a.engine.on_connected(&b.id, 2);
    let replies = b.engine.on_received(&a.id, &payloads(&sent)[0], 3);
    assert_eq!(replies.len(), 0);
    let logged = b.engine.store().messages();
    assert_eq!(logged.len(), 1);
    assert!(matches!(logged[0].to, whisper::types::Recipient::Group(g) if g == gid));
    assert!(matches!(&logged[0].content, MessageContent::Text(t) if t == "to all"));
    assert_eq!(b.engine.store().get_all_pending().len(), 1);
}
