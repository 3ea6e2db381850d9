//! Terminal interface state: modes, the input buffer, contact selection,
//! and what each key does. Drawing is left to the application.

use vstd::prelude::*;
use crate::types::{Contact, NodeId};
use vstd::string::StrSliceExecFns;
use vstd::string::StringExecFns;
use vstd::utf8::is_ascii_chars;

verus! {

/// A key, as the terminal reports it.
#[derive(Clone, Copy, Debug, PartialEq, Eq, Structural)]
pub enum KeyCode {
    Char(char),
    Enter,
    Esc,
    Backspace,
    Delete,
    Up,
    Down,
    Other,
}

/// A key press with its Control modifier.
#[derive(Clone, Copy, Debug, PartialEq, Eq, Structural)]
pub struct KeyEvent {
    pub code: KeyCode,
    pub ctrl: bool,
}

impl From<KeyCode> for KeyEvent {
    fn from(code: KeyCode) -> (r: KeyEvent) {
        KeyEvent { code, ctrl: false }
    }
}

impl vstd::std_specs::convert::FromSpecImpl<KeyCode> for KeyEvent {
    open spec fn obeys_from_spec() -> bool {
        true
    }

    open spec fn from_spec(code: KeyCode) -> KeyEvent {
        KeyEvent { code, ctrl: false }
    }
}

/// Relies on `String::push`: the character goes to the end.
#[verifier::external_body]
fn push_char(s: &mut String, c: char)
    ensures
        final(s)@ == old(s)@.push(c),
{
    s.push(c)
}

/// Relies on `String::pop`: the last character leaves, if there is one.
#[verifier::external_body]
fn pop_char(s: &mut String) -> (r: Option<char>)
    ensures
        old(s)@.len() == 0 ==> r is None && final(s)@ == old(s)@,
        old(s)@.len() > 0 ==> r == Some(old(s)@.last()) && final(s)@ == old(s)@.drop_last(),
{
    s.pop()
}

/// Application mode.
#[derive(Clone, Copy, Debug, PartialEq, Eq, Structural)]
pub enum AppMode {
    /// Viewing chat messages.
    Chat,
    /// Viewing the contact list.
    Contacts,
    /// Typing a message.
    Input,
}

/// What a key asks of the application.
#[derive(Clone, Debug, PartialEq, Eq)]
pub enum InputAction {
    /// Nothing to do.
    NoAction,
    /// Send this text.
    Send(String),
    /// Leave input mode.
    Cancel,
}

/// Result of a key in input mode.
#[derive(Clone, Copy, Debug, PartialEq, Eq, Structural)]
pub enum InputResult {
    Continue,
    Submit,
    Cancel,
}

/// Action of a key in chat mode.
#[derive(Clone, Copy, Debug, PartialEq, Eq, Structural)]
pub enum ChatAction {
    NoAction,
    EnterInput,
    GoToContacts,
    ScrollUp,
    ScrollDown,
    Quit,
}

/// Action of a key in contacts mode.
#[derive(Clone, Copy, Debug, PartialEq, Eq, Structural)]
pub enum ContactAction {
    NoAction,
    Select,
    MoveUp,
    MoveDown,
    OpenChat,
    Quit,
}

/// Edits the input buffer for a key in input mode: a character is appended
/// (Control-C cancels), Backspace removes the last one, Delete clears it;
/// Enter submits and Esc cancels.
pub fn handle_input_mode(key: KeyEvent, input: &mut String) -> (r: InputResult)
    ensures
        match key.code {
            KeyCode::Esc => r == InputResult::Cancel && final(input)@ == old(input)@,
            KeyCode::Enter => r == InputResult::Submit && final(input)@ == old(input)@,
            KeyCode::Backspace => r == InputResult::Continue && final(input)@ == (if old(input)@.len() == 0 {
                old(input)@
            } else {
                old(input)@.drop_last()
            }),
            KeyCode::Char(c) => if c == 'c' && key.ctrl {
                r == InputResult::Cancel && final(input)@ == old(input)@
            } else {
                r == InputResult::Continue && final(input)@ == old(input)@.push(c)
            },
            KeyCode::Delete => r == InputResult::Continue && final(input)@.len() == 0,
            _ => r == InputResult::Continue && final(input)@ == old(input)@,
        },
{
    match key.code {
        KeyCode::Esc => InputResult::Cancel,
        KeyCode::Enter => InputResult::Submit,
        KeyCode::Backspace => {
            pop_char(input);
            InputResult::Continue
        },
        KeyCode::Char(c) => {
            if c == 'c' && key.ctrl {
                return InputResult::Cancel;
            }
            push_char(input, c);
            InputResult::Continue
        },
        KeyCode::Delete => {
            *input = String::new();
            InputResult::Continue
        },
        _ => InputResult::Continue,
    }
}

/// The action of a key in chat mode.
pub fn handle_chat_mode(key: KeyEvent) -> (r: ChatAction)
    ensures
        r == match key.code {
            KeyCode::Char('q') => ChatAction::Quit,
            KeyCode::Char('c') => ChatAction::GoToContacts,
            KeyCode::Char('i') => ChatAction::EnterInput,
            KeyCode::Up | KeyCode::Char('k') => ChatAction::ScrollUp,
            KeyCode::Down | KeyCode::Char('j') => ChatAction::ScrollDown,
            KeyCode::Esc => ChatAction::GoToContacts,
            _ => ChatAction::NoAction,
        },
{
    match key.code {
        KeyCode::Char('q') => ChatAction::Quit,
        KeyCode::Char('c') => ChatAction::GoToContacts,
        KeyCode::Char('i') => ChatAction::EnterInput,
        KeyCode::Up | KeyCode::Char('k') => ChatAction::ScrollUp,
        KeyCode::Down | KeyCode::Char('j') => ChatAction::ScrollDown,
        KeyCode::Esc => ChatAction::GoToContacts,
        _ => ChatAction::NoAction,
    }
}

/// The action of a key in contacts mode over `max` contacts; moving the
/// selection stays within `0..max`.
pub fn handle_contacts_mode(key: KeyEvent, selected: &mut usize, max: usize) -> (r: ContactAction)
    ensures
        max == 0 ==> *final(selected) == *old(selected) && r == (if key.code == KeyCode::Char('q') {
            ContactAction::Quit
        } else {
            ContactAction::NoAction
        }),
        max > 0 ==> match key.code {
            KeyCode::Char('q') => r == ContactAction::Quit && *final(selected) == *old(selected),
            KeyCode::Up | KeyCode::Char('k') => if *old(selected) > 0 {
                r == ContactAction::MoveUp && *final(selected) == *old(selected) - 1
            } else {
                r == ContactAction::NoAction && *final(selected) == *old(selected)
            },
            KeyCode::Down | KeyCode::Char('j') => if *old(selected) + 1 < max {
                r == ContactAction::MoveDown && *final(selected) == *old(selected) + 1
            } else {
                r == ContactAction::NoAction && *final(selected) == *old(selected)
            },
            KeyCode::Enter => r == ContactAction::OpenChat && *final(selected) == *old(selected),
            KeyCode::Char(' ') => r == ContactAction::Select && *final(selected) == *old(selected),
            _ => r == ContactAction::NoAction && *final(selected) == *old(selected),
        },
{
    if max == 0 {
        return match key.code {
            KeyCode::Char('q') => ContactAction::Quit,
            _ => ContactAction::NoAction,
        };
    }
    match key.code {
        KeyCode::Char('q') => ContactAction::Quit,
        KeyCode::Up | KeyCode::Char('k') => {
            if *selected > 0 {
                *selected = *selected - 1;
                ContactAction::MoveUp
            } else {
                ContactAction::NoAction
            }
        },
        KeyCode::Down | KeyCode::Char('j') => {
            if *selected < max - 1 {
                *selected = *selected + 1;
                ContactAction::MoveDown
            } else {
                ContactAction::NoAction
            }
        },
        KeyCode::Enter => ContactAction::OpenChat,
        KeyCode::Char(' ') => ContactAction::Select,
        _ => ContactAction::NoAction,
    }
}

/// A message as the chat view shows it.
#[derive(Clone, Debug)]
pub struct DisplayMessage {
    pub from: NodeId,
    pub content: String,
    /// Seconds since the epoch.
    pub timestamp: i64,
    pub is_ours: bool,
}

impl DisplayMessage {
    pub fn new(from: NodeId, content: String, timestamp: i64, is_ours: bool) -> (r: DisplayMessage)
        ensures
            r.from@ == from@,
            r.content@ == content@,
            r.timestamp == timestamp,
            r.is_ours == is_ours,
    {
        DisplayMessage { from, content, timestamp, is_ours }
    }
}

/// Interface state.
pub struct App {
    pub mode: AppMode,
    /// Peer of the open chat.
    pub current_chat: Option<NodeId>,
    pub messages: Vec<DisplayMessage>,
    pub input: String,
    pub contacts: Vec<Contact>,
    pub selected_contact: usize,
    pub should_quit: bool,
    pub our_peer_id: Option<NodeId>,
}

impl App {
    /// A new interface on the contact list, nothing typed.
    pub fn new() -> (r: App)
        ensures
            r.mode == AppMode::Contacts,
            r.current_chat is None,
            r.messages@.len() == 0,
            r.input@.len() == 0,
            r.contacts@.len() == 0,
            r.selected_contact == 0,
            !r.should_quit,
            r.our_peer_id is None,
    {
        App {
            mode: AppMode::Contacts,
            current_chat: None,
            messages: Vec::new(),
            input: String::new(),
            contacts: Vec::new(),
            selected_contact: 0,
            should_quit: false,
            our_peer_id: None,
        }
    }

    pub fn set_peer_id(&mut self, peer_id: NodeId)
        ensures
            final(self).our_peer_id == Some(peer_id),
            final(self).mode == old(self).mode,
            final(self).input == old(self).input,
    {
        self.our_peer_id = Some(peer_id);
    }

    pub fn add_contact(&mut self, contact: Contact)
        ensures
            final(self).contacts@ == old(self).contacts@.push(contact),
    {
        self.contacts.push(contact);
    }

    pub fn clear_messages(&mut self)
        ensures
            final(self).messages@.len() == 0,
    {
        self.messages = Vec::new();
    }

    pub fn current_peer(&self) -> (r: Option<NodeId>)
        ensures
            match (r, self.current_chat) {
                (Some(a), Some(b)) => a@ == b@,
                (None, None) => true,
                _ => false,
            },
    {
        match &self.current_chat {
            Some(p) => Some(p.copy()),
            None => None,
        }
    }

    /// Handles a key in the current mode. In chat mode `q` quits, `c` and Esc
    /// go to the contact list (Esc also closes the chat), `i` starts typing.
    /// On the contact list `q` quits, Up/`k` and Down/`j` move the selection
    /// within the list, Enter opens the selected chat. While typing, Esc
    /// drops the text and returns to the chat, Enter sends a non-empty text
    /// and returns to the chat, Backspace deletes, a character is appended.
    pub fn handle_key(&mut self, key: KeyEvent) -> (r: InputAction)
        ensures
            old(self).mode == AppMode::Input ==> match key.code {
                KeyCode::Esc => r == InputAction::Cancel && final(self).input@.len() == 0 && final(self).mode == AppMode::Chat,
                KeyCode::Enter => if old(self).input@.len() > 0 {
                    r == InputAction::Send(old(self).input) && final(self).input@.len() == 0 && final(self).mode == AppMode::Chat
                } else {
                    r == InputAction::NoAction && final(self).mode == AppMode::Input
                },
                KeyCode::Backspace => r == InputAction::NoAction && final(self).mode == AppMode::Input
                    && final(self).input@ == (if old(self).input@.len() == 0 { old(self).input@ } else { old(self).input@.drop_last() }),
                KeyCode::Char(c) => r == InputAction::NoAction && final(self).mode == AppMode::Input
                    && final(self).input@ == old(self).input@.push(c),
                _ => r == InputAction::NoAction && final(self).mode == AppMode::Input && final(self).input@ == old(self).input@,
            },
            old(self).mode != AppMode::Input ==> r == InputAction::NoAction && final(self).input@ == old(self).input@,
            old(self).mode == AppMode::Chat ==> match key.code {
                KeyCode::Char('q') => final(self).should_quit && final(self).mode == AppMode::Chat,
                KeyCode::Char('c') => final(self).mode == AppMode::Contacts,
                KeyCode::Char('i') => final(self).mode == AppMode::Input,
                KeyCode::Esc => final(self).mode == AppMode::Contacts && final(self).current_chat is None,
                _ => final(self).mode == AppMode::Chat && final(self).should_quit == old(self).should_quit,
            },
            old(self).mode == AppMode::Contacts ==> match key.code {
                KeyCode::Char('q') => final(self).should_quit && final(self).mode == AppMode::Contacts,
                KeyCode::Up | KeyCode::Char('k') => final(self).selected_contact == (if old(self).selected_contact > 0 {
                    (old(self).selected_contact - 1) as usize
                } else {
                    old(self).selected_contact
                }) && final(self).mode == AppMode::Contacts,
                KeyCode::Down | KeyCode::Char('j') => final(self).selected_contact == (if old(self).selected_contact + 1 < old(self).contacts@.len() {
                    (old(self).selected_contact + 1) as usize
                } else {
                    old(self).selected_contact
                }) && final(self).mode == AppMode::Contacts,
                KeyCode::Enter => if old(self).selected_contact < old(self).contacts@.len() {
                    final(self).mode == AppMode::Chat && final(self).current_chat is Some
                        && final(self).current_chat.unwrap()@ == old(self).contacts@[old(self).selected_contact as int].peer_id@
                } else {
                    final(self).mode == AppMode::Contacts
                },
                _ => final(self).mode == AppMode::Contacts && final(self).should_quit == old(self).should_quit,
            },
    {
        match self.mode {
            AppMode::Chat => {
                match key.code {
                    KeyCode::Char('q') => {
                        self.should_quit = true;
                    },
                    KeyCode::Char('c') => {
                        self.mode = AppMode::Contacts;
                    },
                    KeyCode::Char('i') => {
                        self.mode = AppMode::Input;
                    },
                    KeyCode::Esc => {
                        self.mode = AppMode::Contacts;
                        self.current_chat = None;
                    },
                    _ => {},
                }
                InputAction::NoAction
            },
            AppMode::Contacts => {
                match key.code {
                    KeyCode::Char('q') => {
                        self.should_quit = true;
                    },
                    KeyCode::Up | KeyCode::Char('k') => {
                        if self.selected_contact > 0 {
                            self.selected_contact = self.selected_contact - 1;
                        }
                    },
                    KeyCode::Down | KeyCode::Char('j') => {
                        if self.selected_contact < self.contacts.len() && self.selected_contact + 1 < self.contacts.len() {
                            self.selected_contact = self.selected_contact + 1;
                        }
                    },
                    KeyCode::Enter => {
                        if self.selected_contact < self.contacts.len() {
                            let peer = self.contacts[self.selected_contact].peer_id.copy();
                            self.current_chat = Some(peer);
                            self.mode = AppMode::Chat;
                        }
                    },
                    _ => {},
                }
                InputAction::NoAction
            },
            AppMode::Input => {
                match key.code {
                    KeyCode::Esc => {
                        self.input = String::new();
                        self.mode = AppMode::Chat;
                        InputAction::Cancel
                    },
                    KeyCode::Enter => {
                        if !self.input.as_str().is_empty() {
                            let text = self.input.clone();
                            self.input = String::new();
                            self.mode = AppMode::Chat;
                            InputAction::Send(text)
                        } else {
                            InputAction::NoAction
                        }
                    },
                    KeyCode::Backspace => {
                        pop_char(&mut self.input);
                        InputAction::NoAction
                    },
                    KeyCode::Char(c) => {
                        push_char(&mut self.input, c);
                        InputAction::NoAction
                    },
                    _ => InputAction::NoAction,
                }
            },
        }
    }
}


/// The base-58 text of a node id, if the bytes are a valid peer id.
pub uninterp spec fn peer_id_text_of(id: Seq<u8>) -> Option<Seq<char>>;

/// Relies on libp2p's `PeerId::from_bytes` and `to_base58`: base-58 text is
/// ASCII (the Bitcoin alphabet).
#[verifier::external_body]
fn peer_id_text(id: &NodeId) -> (r: Option<String>)
    ensures
        match r {
            Some(t) => peer_id_text_of(id@) == Some(t@) && is_ascii_chars(t@),
            None => peer_id_text_of(id@) is None,
        },
{
    libp2p::PeerId::from_bytes(&id.bytes).ok().map(|p| p.to_base58())
}

/// A long text cut to its first 6 and last 4 characters around `...`.
pub open spec fn shortened(t: Seq<char>) -> Seq<char> {
    if t.len() > 12 {
        t.subrange(0, 6) + seq!['.', '.', '.'] + t.subrange(t.len() - 4, t.len() as int)
    } else {
        t
    }
}

/// A node id for display: its base-58 text, cut to the first 6 and last 4
/// characters when longer than 12; empty when the bytes are no peer id.
pub fn short_peer_id(peer_id: &NodeId) -> (r: String)
    ensures
        match peer_id_text_of(peer_id@) {
            Some(t) => r@ == shortened(t),
            None => r@.len() == 0,
        },
{
    let full = match peer_id_text(peer_id) {
        Some(t) => t,
        None => return String::new(),
    };
    let text = full.as_str();
    let n = text.unicode_len();
    if n > 12 {
        let head = text.substring_ascii(0, 6);
        let tail = text.substring_ascii(n - 4, n);
        let out = String::from_str(head).concat("...").concat(tail);
        proof {
            reveal_strlit("...");
        }
        assert(out@ =~= shortened(full@));
        out
    } else {
        full
    }
}

} // verus!
