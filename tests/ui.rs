use whisper::identity::{generate_keypair, keypair_to_peer_id};
use whisper::types::{Contact, TrustLevel};
use whisper::ui::{
    handle_chat_mode, handle_contacts_mode, handle_input_mode, short_peer_id, App, AppMode, ChatAction,
    ContactAction, DisplayMessage, InputAction, InputResult, KeyCode, KeyEvent,
};

#[test]
fn new_app_starts_in_contacts_mode() {
    let app = App::new();
    assert_eq!(app.mode, AppMode::Contacts);
}

#[test]
fn new_app_should_not_quit() {
    let app = App::new();
    assert!(!app.should_quit);
}

#[test]
fn q_key_sets_should_quit() {
    let mut app = App::new();
    app.handle_key(KeyEvent::from(KeyCode::Char('q')));
    assert!(app.should_quit);
}

#[test]
fn input_buffer_appends_chars() {
    let mut app = App::new();
    app.mode = AppMode::Input;
    app.handle_key(KeyEvent::from(KeyCode::Char('h')));
    app.handle_key(KeyEvent::from(KeyCode::Char('i')));
    assert_eq!(app.input, "hi");
}

#[test]
fn backspace_removes_char() {
    let mut app = App::new();
    app.mode = AppMode::Input;
    app.input = "hello".to_string();
    app.handle_key(KeyEvent::from(KeyCode::Backspace));
    assert_eq!(app.input, "hell");
}

#[test]
fn enter_in_input_mode_sends() {
    let mut app = App::new();
    app.mode = AppMode::Input;
    app.input = "test message".to_string();
    let action = app.handle_key(KeyEvent::from(KeyCode::Enter));
    assert_eq!(action, InputAction::Send("test message".to_string()));
    assert!(app.input.is_empty());
    assert_eq!(app.mode, AppMode::Chat);
}

#[test]
fn enter_opens_selected_chat() {
    let mut app = App::new();
    let peer = keypair_to_peer_id(&generate_keypair());
    app.add_contact(Contact::new(peer.clone(), "alice".to_string(), vec![]));
    app.handle_key(KeyEvent::from(KeyCode::Enter));
    assert_eq!(app.mode, AppMode::Chat);
    assert_eq!(app.current_peer(), Some(peer));
}

#[test]
fn input_mode_appends_chars() {
    let mut input = String::new();
    let result = handle_input_mode(KeyEvent::from(KeyCode::Char('a')), &mut input);
    assert_eq!(result, InputResult::Continue);
    assert_eq!(input, "a");
}

#[test]
fn input_mode_backspace_removes() {
    let mut input = "hello".to_string();
    handle_input_mode(KeyEvent::from(KeyCode::Backspace), &mut input);
    assert_eq!(input, "hell");
}

#[test]
fn input_mode_enter_submits() {
    let mut input = "test".to_string();
    let result = handle_input_mode(KeyEvent::from(KeyCode::Enter), &mut input);
    assert_eq!(result, InputResult::Submit);
}

#[test]
fn input_mode_esc_cancels() {
    let mut input = "test".to_string();
    let result = handle_input_mode(KeyEvent::from(KeyCode::Esc), &mut input);
    assert_eq!(result, InputResult::Cancel);
}

#[test]
fn input_mode_ctrl_c_cancels_and_delete_clears() {
    let mut input = "abc".to_string();
    let ctrl_c = KeyEvent { code: KeyCode::Char('c'), ctrl: true };
    assert_eq!(handle_input_mode(ctrl_c, &mut input), InputResult::Cancel);
    assert_eq!(input, "abc");
    assert_eq!(handle_input_mode(KeyEvent::from(KeyCode::Delete), &mut input), InputResult::Continue);
    assert_eq!(input, "");
}

#[test]
fn contacts_mode_navigation() {
    let mut selected = 1usize;
    let max = 5usize;
    let up_key = KeyEvent::from(KeyCode::Up);
    let action = handle_contacts_mode(up_key, &mut selected, max);
    assert_eq!(action, ContactAction::MoveUp);
    assert_eq!(selected, 0);
    let action = handle_contacts_mode(up_key, &mut selected, max);
    assert_eq!(action, ContactAction::NoAction);
    assert_eq!(selected, 0);
}

#[test]
fn contacts_mode_stays_in_bounds() {
    let mut selected = 4usize;
    assert_eq!(handle_contacts_mode(KeyEvent::from(KeyCode::Down), &mut selected, 5), ContactAction::NoAction);
    assert_eq!(selected, 4);
    let mut none = 0usize;
    assert_eq!(handle_contacts_mode(KeyEvent::from(KeyCode::Down), &mut none, 0), ContactAction::NoAction);
    assert_eq!(handle_contacts_mode(KeyEvent::from(KeyCode::Char('q')), &mut none, 0), ContactAction::Quit);
}

#[test]
fn chat_mode_quit() {
    let action = handle_chat_mode(KeyEvent::from(KeyCode::Char('q')));
    assert_eq!(action, ChatAction::Quit);
}

#[test]
fn contact_list_creates_items() {
    let contacts = vec![
        Contact {
            peer_id: keypair_to_peer_id(&generate_keypair()),
            alias: "Alice".to_string(),
            public_key: vec![],
            trust_level: TrustLevel::Trusted,
            last_seen: None,
        },
        Contact {
            peer_id: keypair_to_peer_id(&generate_keypair()),
            alias: "Bob".to_string(),
            public_key: vec![],
            trust_level: TrustLevel::Unknown,
            last_seen: None,
        },
    ];
    assert_eq!(contacts.len(), 2);
    assert_eq!(contacts[0].alias, "Alice");
}

#[test]
fn display_message_formats() {
    let msg = DisplayMessage::new(keypair_to_peer_id(&generate_keypair()), "Hello".to_string(), 1_700_000_000, true);
    assert_eq!(msg.content, "Hello");
    assert!(msg.is_ours);
}

#[test]
fn trust_level_symbols() {
    let trusted = TrustLevel::Trusted;
    let blocked = TrustLevel::Blocked;
    assert!(matches!(trusted, TrustLevel::Trusted));
    assert!(matches!(blocked, TrustLevel::Blocked));
}

#[test]
fn empty_contacts_handled() {
    let contacts: Vec<Contact> = vec![];
    assert!(contacts.is_empty());
}

#[test]
fn short_peer_id_truncates_long_id() {
    let peer_id = keypair_to_peer_id(&generate_keypair());
    let full = libp2p::PeerId::from_bytes(&peer_id.bytes).unwrap().to_base58();
    let short = short_peer_id(&peer_id);
    assert!(short.len() < full.len());
    assert!(short.contains("..."));
    assert_eq!(short.len(), 13);
}

#[test]
fn short_peer_id_preserves_prefix_and_suffix() {
    let peer_id = keypair_to_peer_id(&generate_keypair());
    let full = libp2p::PeerId::from_bytes(&peer_id.bytes).unwrap().to_base58();
    let short = short_peer_id(&peer_id);
    assert!(short.starts_with(&full[..6]));
    assert!(short.ends_with(&full[full.len() - 4..]));
}

#[test]
fn short_peer_id_of_invalid_bytes_is_empty() {
    let bogus = whisper::types::NodeId { bytes: vec![0xff, 0xff] };
    assert_eq!(short_peer_id(&bogus), "");
}
