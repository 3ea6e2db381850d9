use whisper::identity::{generate_keypair, keypair_to_peer_id};
use whisper::store::{Store, StoreError};
use whisper::types::{
    Contact, Group, Message, MessageContent, MessageId, MessageStatus, NodeId, Recipient,
    TrustLevel,
};

fn make_peer_id() -> NodeId {
    keypair_to_peer_id(&generate_keypair())
}

fn make_contact(alias: &str) -> Contact {
    Contact::new(make_peer_id(), alias.to_string(), vec![1, 2, 3])
}

fn id(n: u8) -> MessageId {
    MessageId { bytes: [n; 16] }
}

fn text_at(from: &NodeId, to: &NodeId, text: &str, ts: i64) -> Message {
    let mut m = Message::new_text(from.clone(), Recipient::Direct(to.clone()), text.to_string());
    m.timestamp = ts;
    m
}

#[test]
fn contacts_add_contact_works() {
    let mut store = Store::new();
    assert!(store.upsert_contact(make_contact("alice")).is_ok());
    assert_eq!(store.list_contacts().len(), 1);
}

#[test]
fn add_duplicate_alias_fails() {
    let mut store = Store::new();
    let c1 = Contact::new(make_peer_id(), "alice".to_string(), vec![]);
    let c2 = Contact::new(make_peer_id(), "alice".to_string(), vec![]);
    assert!(store.upsert_contact(c1).is_ok());
    assert_eq!(store.upsert_contact(c2), Err(StoreError::AlreadyExists));
}

#[test]
fn remove_contact_works() {
    let mut store = Store::new();
    let contact = make_contact("alice");
    let peer_id = contact.peer_id.clone();
    store.upsert_contact(contact).unwrap();
    assert!(store.delete_contact(&peer_id));
    assert!(store.list_contacts().is_empty());
}

#[test]
fn get_by_peer_id_works() {
    let mut store = Store::new();
    let contact = make_contact("alice");
    let peer_id = contact.peer_id.clone();
    store.upsert_contact(contact).unwrap();
    assert!(store.get_contact(&peer_id).is_some());
}

#[test]
fn get_by_alias_works() {
    let mut store = Store::new();
    store.upsert_contact(make_contact("alice")).unwrap();
    assert!(store.get_contact_by_alias("alice").is_some());
    assert!(store.get_contact_by_alias("bob").is_none());
}

#[test]
fn contacts_list_contacts_returns_all() {
    let mut store = Store::new();
    store.upsert_contact(make_contact("alice")).unwrap();
    store.upsert_contact(make_contact("bob")).unwrap();
    assert_eq!(store.list_contacts().len(), 2);
}

#[test]
fn set_trust_level_works() {
    let mut store = Store::new();
    let contact = make_contact("alice");
    let peer_id = contact.peer_id.clone();
    store.upsert_contact(contact).unwrap();
    assert!(store.set_trust_level(&peer_id, TrustLevel::Trusted));
    let c = store.get_contact(&peer_id).unwrap();
    assert_eq!(c.trust_level, TrustLevel::Trusted);
}

#[test]
fn is_blocked_works() {
    let mut store = Store::new();
    let contact = make_contact("alice");
    let peer_id = contact.peer_id.clone();
    store.upsert_contact(contact).unwrap();
    assert!(!store.is_blocked(&peer_id));
    store.set_trust_level(&peer_id, TrustLevel::Blocked);
    assert!(store.is_blocked(&peer_id));
}

#[test]
fn update_last_seen_works() {
    let mut store = Store::new();
    let contact = make_contact("alice");
    let peer_id = contact.peer_id.clone();
    store.upsert_contact(contact).unwrap();
    assert!(store.get_contact(&peer_id).unwrap().last_seen.is_none());
    store.update_last_seen(&peer_id, 1_700_000_000);
    assert_eq!(store.get_contact(&peer_id).unwrap().last_seen, Some(1_700_000_000));
}

#[test]
fn remove_clears_alias() {
    let mut store = Store::new();
    let contact = make_contact("alice");
    let peer_id = contact.peer_id.clone();
    store.upsert_contact(contact).unwrap();
    store.delete_contact(&peer_id);
    store.upsert_contact(make_contact("alice")).unwrap();
}

#[test]
fn contacts_are_listed_by_alias() {
    let mut store = Store::new();
    for alias in ["carol", "alice", "bob", "Zed"] {
        store.upsert_contact(make_contact(alias)).unwrap();
    }
    let aliases: Vec<String> = store.list_contacts().into_iter().map(|c| c.alias).collect();
    assert_eq!(aliases, vec!["Zed", "alice", "bob", "carol"]);
}

#[test]
fn open_creates_tables() {
    let store = Store::new();
    assert!(store.list_contacts().is_empty());
    assert!(store.list_groups().is_empty());
    assert!(store.get_all_pending().is_empty());
}

#[test]
fn insert_and_get_contact() {
    let mut store = Store::new();
    let peer_id = make_peer_id();
    store.upsert_contact(Contact::new(peer_id.clone(), "alice".to_string(), vec![1, 2, 3])).unwrap();
    let loaded = store.get_contact(&peer_id).unwrap();
    assert_eq!(loaded.alias, "alice");
    assert_eq!(loaded.public_key, vec![1, 2, 3]);
}

#[test]
fn get_contact_by_alias() {
    let mut store = Store::new();
    store.upsert_contact(Contact::new(make_peer_id(), "bob".to_string(), vec![])).unwrap();
    let loaded = store.get_contact_by_alias("bob");
    assert!(loaded.is_some());
}

#[test]
fn db_list_contacts_returns_all() {
    let mut store = Store::new();
    store.upsert_contact(Contact::new(make_peer_id(), "alice".to_string(), vec![])).unwrap();
    store.upsert_contact(Contact::new(make_peer_id(), "bob".to_string(), vec![])).unwrap();
    assert_eq!(store.list_contacts().len(), 2);
}

#[test]
fn delete_contact_works() {
    let mut store = Store::new();
    let peer_id = make_peer_id();
    store.upsert_contact(Contact::new(peer_id.clone(), "alice".to_string(), vec![])).unwrap();
    assert!(store.delete_contact(&peer_id));
    assert!(store.get_contact(&peer_id).is_none());
    assert!(!store.delete_contact(&peer_id));
}

#[test]
fn insert_message() {
    let mut store = Store::new();
    let msg = Message::new_text(make_peer_id(), Recipient::Direct(make_peer_id()), "hello".to_string());
    store.insert_message(msg.clone()).unwrap();
    assert_eq!(store.insert_message(msg), Err(StoreError::AlreadyExists));
}

#[test]
fn get_messages_with_peer() {
    let mut store = Store::new();
    let me = make_peer_id();
    let them = make_peer_id();
    store.insert_message(Message::new_text(me.clone(), Recipient::Direct(them.clone()), "hi".to_string())).unwrap();
    store.insert_message(Message::new_text(them.clone(), Recipient::Direct(me.clone()), "hello".to_string())).unwrap();
    let messages = store.get_messages_with_peer(&them, 10);
    assert_eq!(messages.len(), 2);
}

#[test]
fn messages_come_newest_first_and_limited() {
    let mut store = Store::new();
    let me = make_peer_id();
    let them = make_peer_id();
    let other = make_peer_id();
    store.insert_message(text_at(&me, &them, "b", 20)).unwrap();
    store.insert_message(text_at(&me, &them, "a", 10)).unwrap();
    store.insert_message(text_at(&me, &other, "x", 15)).unwrap();
    store.insert_message(text_at(&them, &me, "c", 30)).unwrap();
    let texts: Vec<String> = store
        .get_messages_with_peer(&them, 2)
        .into_iter()
        .map(|m| match m.content {
            MessageContent::Text(t) => t,
            _ => String::new(),
        })
        .collect();
    assert_eq!(texts, vec!["c", "b"]);
    assert_eq!(store.get_messages_with_peer(&them, 10).len(), 3);
    assert_eq!(store.get_messages_with_peer(&them, 0).len(), 0);
}

#[test]
fn update_message_status() {
    let mut store = Store::new();
    let msg = Message::new_text(make_peer_id(), Recipient::Direct(make_peer_id()), "test".to_string());
    let id = msg.id;
    store.insert_message(msg).unwrap();
    assert!(store.update_message_status(&id, MessageStatus::Sent));
}

#[test]
fn status_never_moves_backwards() {
    let mut store = Store::new();
    let msg = Message::new_text(make_peer_id(), Recipient::Direct(make_peer_id()), "x".to_string());
    let mid = msg.id;
    store.insert_message(msg).unwrap();
    assert!(store.update_message_status(&mid, MessageStatus::Sent));
    assert!(store.update_message_status(&mid, MessageStatus::Delivered));
    assert!(!store.update_message_status(&mid, MessageStatus::Pending));
    assert!(!store.update_message_status(&mid, MessageStatus::Sent));
    assert!(matches!(store.get_message(&mid).unwrap().status, MessageStatus::Delivered));
    assert!(store.update_message_status(&mid, MessageStatus::Read));
    assert!(!store.update_message_status(&mid, MessageStatus::Delivered));
    assert!(!store.update_message_status(&mid, MessageStatus::Failed("late".to_string())));
    assert!(matches!(store.get_message(&mid).unwrap().status, MessageStatus::Read));
    assert!(!store.update_message_status(&id(9), MessageStatus::Read));
}

#[test]
fn failed_status_can_be_retried() {
    let mut store = Store::new();
    let msg = Message::new_text(make_peer_id(), Recipient::Direct(make_peer_id()), "x".to_string());
    let id = msg.id;
    store.insert_message(msg).unwrap();
    assert!(store.update_message_status(&id, MessageStatus::Failed("no route".to_string())));
    assert!(store.update_message_status(&id, MessageStatus::Pending));
    assert!(matches!(store.get_message(&id).unwrap().status, MessageStatus::Pending));
}

#[test]
fn upsert_updates_existing() {
    let mut store = Store::new();
    let peer_id = make_peer_id();
    let mut contact = Contact::new(peer_id.clone(), "alice".to_string(), vec![1]);
    store.upsert_contact(contact.clone()).unwrap();
    contact.public_key = vec![2, 3];
    store.upsert_contact(contact).unwrap();
    let loaded = store.get_contact(&peer_id).unwrap();
    assert_eq!(loaded.public_key, vec![2, 3]);
    assert_eq!(store.list_contacts().len(), 1);
}

#[test]
fn contact_trust_level_persists() {
    let mut store = Store::new();
    let peer_id = make_peer_id();
    let mut contact = Contact::new(peer_id.clone(), "alice".to_string(), vec![]);
    contact.trust_level = TrustLevel::Trusted;
    store.upsert_contact(contact).unwrap();
    assert_eq!(store.get_contact(&peer_id).unwrap().trust_level, TrustLevel::Trusted);
}

#[test]
fn contact_last_seen_persists() {
    let mut store = Store::new();
    let peer_id = make_peer_id();
    let mut contact = Contact::new(peer_id.clone(), "alice".to_string(), vec![]);
    contact.last_seen = Some(1_700_000_000);
    store.upsert_contact(contact).unwrap();
    assert!(store.get_contact(&peer_id).unwrap().last_seen.is_some());
}

#[test]
fn create_and_get_group() {
    let mut store = Store::new();
    let group = Group::new("Test Group".to_string(), vec![1, 2, 3]);
    store.create_group(group.clone()).unwrap();
    let loaded = store.get_group(&group.id).unwrap();
    assert_eq!(loaded.name, "Test Group");
    assert_eq!(loaded.symmetric_key, vec![1, 2, 3]);
}

#[test]
fn get_group_by_name() {
    let mut store = Store::new();
    let group = Group::new("My Group".to_string(), vec![]);
    store.create_group(group.clone()).unwrap();
    let loaded = store.get_group_by_name("My Group");
    assert!(loaded.is_some());
    assert_eq!(loaded.unwrap().id, group.id);
}

#[test]
fn group_name_is_unique() {
    let mut store = Store::new();
    store.create_group(Group::new("g".to_string(), vec![])).unwrap();
    assert_eq!(store.create_group(Group::new("g".to_string(), vec![])), Err(StoreError::AlreadyExists));
}

#[test]
fn list_groups() {
    let mut store = Store::new();
    store.create_group(Group::new("Alpha".to_string(), vec![])).unwrap();
    store.create_group(Group::new("Beta".to_string(), vec![])).unwrap();
    assert_eq!(store.list_groups().len(), 2);
}

#[test]
fn delete_group() {
    let mut store = Store::new();
    let group = Group::new("ToDelete".to_string(), vec![]);
    store.create_group(group.clone()).unwrap();
    assert!(store.delete_group(&group.id));
    assert!(store.get_group(&group.id).is_none());
}

#[test]
fn add_group_member() {
    let mut store = Store::new();
    let group = Group::new("Team".to_string(), vec![]);
    let peer = make_peer_id();
    store.create_group(group.clone()).unwrap();
    store.add_group_member(&group.id, &peer).unwrap();
    let loaded = store.get_group(&group.id).unwrap();
    assert_eq!(loaded.members.len(), 1);
    assert_eq!(loaded.members[0], peer);
    assert_eq!(store.add_group_member(&id(3), &peer), Err(StoreError::NotFound));
}

#[test]
fn remove_group_member() {
    let mut store = Store::new();
    let mut group = Group::new("Team".to_string(), vec![]);
    let peer = make_peer_id();
    group.add_member(peer.clone());
    store.create_group(group.clone()).unwrap();
    assert!(store.remove_group_member(&group.id, &peer));
    let loaded = store.get_group(&group.id).unwrap();
    assert!(loaded.members.is_empty());
}

#[test]
fn group_members_persist() {
    let mut store = Store::new();
    let mut group = Group::new("Team".to_string(), vec![]);
    group.add_member(make_peer_id());
    group.add_member(make_peer_id());
    store.create_group(group.clone()).unwrap();
    assert_eq!(store.get_group(&group.id).unwrap().members.len(), 2);
}

#[test]
fn queue_pending_message() {
    let mut store = Store::new();
    let peer = make_peer_id();
    let id = id(1);
    store.queue_pending_message(&id, &peer, b"encrypted data", 100);
    let pending = store.get_pending_for_peer(&peer);
    assert_eq!(pending.len(), 1);
    assert_eq!(pending[0].0, id);
    assert_eq!(pending[0].1, b"encrypted data");
}

#[test]
fn queue_pending_is_upsert() {
    let mut store = Store::new();
    let peer = make_peer_id();
    store.queue_pending_message(&id(1), &peer, b"one", 100);
    store.queue_pending_message(&id(2), &peer, b"two", 101);
    store.queue_pending_message(&id(1), &peer, b"one again", 102);
    let pending = store.get_pending_for_peer(&peer);
    assert_eq!(pending.len(), 2);
    assert_eq!(pending[0], (id(2), b"two".to_vec()));
    assert_eq!(pending[1], (id(1), b"one again".to_vec()));
}

#[test]
fn get_all_pending() {
    let mut store = Store::new();
    let peer1 = make_peer_id();
    let peer2 = make_peer_id();
    store.queue_pending_message(&id(1), &peer1, b"msg1", 1);
    store.queue_pending_message(&id(2), &peer2, b"msg2", 2);
    let all = store.get_all_pending();
    assert_eq!(all.len(), 2);
    assert_eq!(all[0], (id(1), peer1, b"msg1".to_vec()));
    assert_eq!(all[1], (id(2), peer2, b"msg2".to_vec()));
}

#[test]
fn remove_pending_message() {
    let mut store = Store::new();
    let peer = make_peer_id();
    store.queue_pending_message(&id(1), &peer, b"data", 5);
    assert!(store.remove_pending_message(&id(1)));
    assert!(store.get_pending_for_peer(&peer).is_empty());
    assert!(!store.remove_pending_message(&id(1)));
}

#[test]
fn pending_attempts_count_up() {
    let mut store = Store::new();
    let peer = make_peer_id();
    store.queue_pending_message(&id(1), &peer, b"data", 5);
    assert!(store.increment_pending_attempts(&id(1)));
    assert!(store.increment_pending_attempts(&id(1)));
    assert_eq!(store.pending_entries()[0].attempts, 2);
    assert!(!store.increment_pending_attempts(&id(2)));
}

#[test]
fn pending_entry_restored_byte_identical() {
    let mut store = Store::new();
    let peer = make_peer_id();
    let payload: Vec<u8> = (0..=255u8).collect();
    store.queue_pending_message(&id(1), &peer, &payload, 42);
    let saved = store.pending_entries();
    let mut reopened = Store::new();
    for e in saved {
        reopened.restore_pending(e);
    }
    let all = reopened.get_all_pending();
    assert_eq!(all, vec![(id(1), peer, payload)]);
    assert_eq!(reopened.pending_entries()[0].enqueued_at, 42);
}

#[test]
fn queue_upserts_on_message_id() {
    let mut store = Store::new();
    let peer1 = make_peer_id();
    let peer2 = make_peer_id();
    store.queue_pending_message(&id(1), &peer1, b"first", 1);
    store.queue_pending_message(&id(1), &peer2, b"second", 2);
    let all = store.get_all_pending();
    assert_eq!(all, vec![(id(1), peer2.clone(), b"second".to_vec())]);
    assert!(store.get_pending_for_peer(&peer1).is_empty());
}

#[test]
fn pending_survives_reopen() {
    let mut store = Store::new();
    let peer = make_peer_id();
    store.queue_pending_message(&id(4), &peer, b"persist me", 7);
    let saved = store.pending_entries();
    drop(store);
    let mut reopened = Store::new();
    for e in saved {
        reopened.restore_pending(e);
    }
    let pending = reopened.get_all_pending();
    assert_eq!(pending.len(), 1);
    assert_eq!(pending[0].2, b"persist me");
}
