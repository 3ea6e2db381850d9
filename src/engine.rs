//! The delivery engine: per-peer state and the decisions of the delivery
//! plane. Each operation takes the current state and one event (a submit, a
//! connection change, inbound bytes) and returns the transport actions to
//! perform; the application performs them and reports the next event.

use vstd::prelude::*;
use vstd::utf8::encode_utf8;
use vstd::utf8::valid_utf8;
use crate::crypto::{
    decrypt_from_group, decrypt_message, direct_decrypt_spec, ed25519_pk_to_curve,
    ed25519_pk_to_x25519, encrypt_for_group, encrypt_message, group_decrypt_spec, sealed_to,
    secret_box_open,
};
use crate::store::{
    apply_status, contact_at, has_contact, has_group, has_group_named, pending_for_spec,
    queue_upsert, Store, StoreError, StoreView,
};
use crate::types::{
    fresh_id, ContactView, ContentView, Group, GroupView, Message, MessageContent, MessageId,
    MessageStatus, MessageView, NodeId, PendingOutbound, PendingView, ReceiptType, Recipient,
    RecipientView, TrustLevel,
};
use crate::wire::{classify, classify_spec, create_receipt, emit_spec, Frame, FrameView};

verus! {

/// Lossy UTF-8 text of bytes: invalid sequences become U+FFFD.
pub uninterp spec fn utf8_lossy_of(b: Seq<u8>) -> Seq<char>;

/// Relies on `String::from_utf8_lossy`: valid UTF-8 is kept as it is.
#[verifier::external_body]
fn utf8_lossy(b: &[u8]) -> (r: String)
    ensures
        r@ == utf8_lossy_of(b@),
        valid_utf8(b@) ==> encode_utf8(r@) == b@,
{
    String::from_utf8_lossy(b).into_owned()
}

/// State of a peer as the engine sees it.
#[derive(Clone, Copy, Debug, PartialEq, Eq, Structural)]
pub enum PeerState {
    /// Neither a contact nor connected.
    Unknown,
    /// Known, not connected.
    Offline,
    /// Connected: entered on a transport `Connected`, left on `Disconnected`.
    Online,
    /// Blocked: nothing is sent to it and what it sends is dropped.
    Dropped,
}

/// A transport action for the application to perform.
#[derive(Debug)]
pub enum Action {
    /// Hand these bytes, queued for message `msg_id`, to the transport for
    /// this peer.
    Send { to: NodeId, msg_id: MessageId, payload: Vec<u8> },
}

pub enum ActionView {
    /// Peer, message id, bytes.
    Send(Seq<u8>, Seq<u8>, Seq<u8>),
}

impl View for Action {
    type V = ActionView;

    open spec fn view(&self) -> ActionView {
        match self {
            Action::Send { to, msg_id, payload } => ActionView::Send(to@, msg_id@, payload@),
        }
    }
}

/// Errors of a submit.
#[derive(Clone, Copy, Debug, PartialEq, Eq, Structural)]
pub enum EngineError {
    /// No contact or group with this id.
    NotFound,
    /// The contact is blocked: outbound traffic to it is rejected.
    Blocked,
    /// The store refused the write.
    Store(StoreError),
    /// Fewer queue ids than group members were given.
    MissingQueueIds,
}

/// The views of a sequence of actions.
pub open spec fn action_views(acts: Seq<Action>) -> Seq<ActionView> {
    acts.map_values(|a: Action| a@)
}

/// Whether `peer` is among the connected peers.
pub open spec fn is_online(online: Seq<Seq<u8>>, peer: Seq<u8>) -> bool {
    exists|i: int| 0 <= i < online.len() && online[i] == peer
}

/// Whether `peer` is a blocked contact.
pub open spec fn is_blocked(cs: Seq<ContactView>, peer: Seq<u8>) -> bool {
    exists|i: int| contact_at(cs, i, peer) && cs[i].trust_level == TrustLevel::Blocked
}

/// The state of a peer.
pub open spec fn peer_state_spec(cs: Seq<ContactView>, online: Seq<Seq<u8>>, peer: Seq<u8>) -> PeerState {
    if is_blocked(cs, peer) {
        PeerState::Dropped
    } else if is_online(online, peer) {
        PeerState::Online
    } else if has_contact(cs, peer) {
        PeerState::Offline
    } else {
        PeerState::Unknown
    }
}

/// Whether a contact's raw public key can be mapped to an X25519 key.
pub open spec fn key_usable(pk: Seq<u8>) -> bool {
    pk.len() == 32 && ed25519_pk_to_curve(pk) is Some
}

/// Whether a direct send to a contact with raw public key `pk` falls back
/// to the clear because encryption fails: the key is known (non-empty) but
/// unusable. An unknown key is the documented bootstrap path, no failure.
pub open spec fn direct_falls_back(pk: Seq<u8>) -> bool {
    pk.len() > 0 && !key_usable(pk)
}

/// The ids of messages sent in the clear after an encryption failure, with
/// `id` added when `failed`.
pub open spec fn note_fallback(fallbacks: Seq<Seq<u8>>, id: Seq<u8>, failed: bool) -> Seq<Seq<u8>> {
    if failed {
        fallbacks.push(id)
    } else {
        fallbacks
    }
}

/// The group with id `gid` (ids are unique in the store).
pub open spec fn group_of(gs: Seq<GroupView>, gid: Seq<u8>) -> GroupView {
    gs[choose|i: int| crate::store::group_at(gs, i, gid)]
}

/// Whether `payload` is what a direct send of `plain` to a contact with
/// raw public key `pk` carries: a sealed box for the contact's X25519 key,
/// or the bytes in the clear when the key is unknown or unusable.
pub open spec fn direct_payload_ok(payload: Seq<u8>, pk: Seq<u8>, plain: Seq<u8>) -> bool {
    if pk.len() == 32 && ed25519_pk_to_curve(pk) is Some {
        sealed_to(payload, plain, ed25519_pk_to_curve(pk).unwrap())
    } else {
        payload == plain
    }
}

/// Whether `payload` is what a group send of `plain` under `key` carries: a
/// nonce and a secret box, or the bytes in the clear when the key is unusable.
pub open spec fn group_payload_ok(payload: Seq<u8>, key: Seq<u8>, plain: Seq<u8>) -> bool {
    if key.len() == 32 {
        payload.len() == plain.len() + 40 && secret_box_open(
            payload.subrange(24, payload.len() as int),
            payload.subrange(0, 24),
            key,
        ) == Some(plain)
    } else {
        payload == plain
    }
}

/// The sends that a flush for `peer` performs: its pending entries, in
/// queue order.
pub open spec fn flush_sends(q: Seq<PendingView>, peer: Seq<u8>) -> Seq<ActionView> {
    pending_for_spec(q, peer).map_values(|e: PendingView| ActionView::Send(peer, e.msg_id, e.payload))
}

/// The first group, in store order, whose key opens `data`: its id and the
/// plaintext.
pub open spec fn first_group_opening(gs: Seq<GroupView>, data: Seq<u8>) -> Option<(Seq<u8>, Seq<u8>)>
    decreases gs.len(),
{
    if gs.len() == 0 {
        None
    } else {
        match group_decrypt_spec(data, gs[0].symmetric_key) {
            Ok(m) => Some((gs[0].id, m)),
            Err(_) => first_group_opening(gs.drop_first(), data),
        }
    }
}

/// The inbound decrypt chain: group keys, then our key pair, then the bytes
/// as they are.
pub open spec fn inbound_plaintext(gs: Seq<GroupView>, data: Seq<u8>, pk: Seq<u8>, sk: Seq<u8>) -> Seq<u8> {
    match first_group_opening(gs, data) {
        Some((_, m)) => m,
        None => match direct_decrypt_spec(data, pk, sk) {
            Ok(m) => m,
            Err(_) => data,
        },
    }
}

/// Whom an inbound text is logged as addressed to: the group whose key
/// opened it, else us.
pub open spec fn inbound_recipient(gs: Seq<GroupView>, data: Seq<u8>, me: Seq<u8>) -> RecipientView {
    match first_group_opening(gs, data) {
        Some((gid, _)) => RecipientView::Group(gid),
        None => RecipientView::Direct(me),
    }
}

/// Status that a receipt kind stands for.
pub open spec fn receipt_status(k: ReceiptType) -> MessageStatus {
    match k {
        ReceiptType::Delivered => MessageStatus::Delivered,
        ReceiptType::Read => MessageStatus::Read,
    }
}

/// The effect of a transport `Connected` event for `peer` at time `now`
/// that takes engine state `old` to `new` with sends `acts`.
pub open spec fn connected_effect(old: EngineView, new: EngineView, peer: Seq<u8>, now: i64, acts: Seq<ActionView>) -> bool {
    &&& new.me == old.me
    &&& new.enc_public == old.enc_public
    &&& new.enc_secret == old.enc_secret
    &&& is_blocked(old.store.contacts, peer) ==> new == old && acts.len() == 0
    &&& !is_blocked(old.store.contacts, peer) ==> {
        &&& is_online(new.online, peer)
        &&& forall|q: Seq<u8>| q != peer ==> (is_online(new.online, q) == is_online(old.online, q))
        &&& acts == flush_sends(old.store.pending, peer)
        &&& new.store.pending == old.store.pending
        &&& new.fallbacks == old.fallbacks
        &&& new.store.log == old.store.log
        &&& new.store.groups == old.store.groups
        &&& (!has_contact(old.store.contacts, peer) ==> new.store.contacts == old.store.contacts)
        &&& (has_contact(old.store.contacts, peer) ==> exists|i: int| contact_at(old.store.contacts, i, peer)
            && new.store.contacts == old.store.contacts.update(i,
                ContactView { last_seen: Some(now), ..old.store.contacts[i] }))
    }
}

/// The effect of bytes `data` arriving from `from` at time `now` that
/// takes engine state `old` to `new` with sends `acts`; a text is logged
/// under id `local` (unless that id is logged already) and answered with a
/// receipt queued under id `rid`. A text that a group key opened is logged
/// as addressed to that group.
pub open spec fn received_effect(
    old: EngineView,
    new: EngineView,
    from: Seq<u8>,
    data: Seq<u8>,
    now: i64,
    local: Seq<u8>,
    rid: Seq<u8>,
    acts: Seq<ActionView>,
) -> bool {
    &&& new.online == old.online
    &&& new.me == old.me
    &&& new.enc_public == old.enc_public
    &&& new.enc_secret == old.enc_secret
    &&& new.store.contacts == old.store.contacts
    &&& is_blocked(old.store.contacts, from) ==> new == old && acts.len() == 0
    &&& !is_blocked(old.store.contacts, from) ==> match classify_spec(
                inbound_plaintext(old.store.groups, data, old.enc_public, old.enc_secret),
            ) {
                FrameView::Receipt(id, k) => {
                    &&& new.fallbacks == old.fallbacks
                    &&& new.store.log == apply_status(old.store.log, id, receipt_status(k))
                    &&& new.store.pending == old.store.pending
                    &&& new.store.groups == old.store.groups
                    &&& acts.len() == 0
                },
                FrameView::Invite(name, gid, sealed) => {
                    &&& new.fallbacks == old.fallbacks
                    &&& new.store.log == old.store.log
                    &&& new.store.pending == old.store.pending
                    &&& new.store.groups == match direct_decrypt_spec(sealed, old.enc_public, old.enc_secret) {
                        Ok(key) => groups_after_invite(old.store.groups, from, utf8_lossy_of(name), gid, key, now),
                        Err(_) => old.store.groups,
                    }
                    &&& acts.len() == 0
                },
                FrameView::Text(bytes) => {
                    &&& new.store.groups == old.store.groups
                    &&& (crate::store::logged(old.store.log, local) ==> new == old && acts.len() == 0)
                    &&& (!crate::store::logged(old.store.log, local) ==> new.fallbacks == note_fallback(old.fallbacks, rid,
                        direct_falls_back(contact_public_key(old.store.contacts, from))))
                    &&& (!crate::store::logged(old.store.log, local) ==> exists|p: int, payload: Seq<u8>|
                        0 <= p <= old.store.log.len()
                        && new.store.log == old.store.log.insert(p, MessageView {
                            id: local,
                            from: from,
                            to: inbound_recipient(old.store.groups, data, old.me),
                            content: ContentView::Text(utf8_lossy_of(bytes)),
                            timestamp: now,
                            status: MessageStatus::Delivered,
                        })
                        && direct_payload_ok(payload, contact_public_key(old.store.contacts, from),
                            emit_spec(FrameView::Receipt(local, ReceiptType::Delivered)))
                        && new.store.pending == queue_upsert(old.store.pending, PendingView {
                            msg_id: rid,
                            destination: from,
                            payload,
                            enqueued_at: now,
                            attempts: 0,
                        })
                        && acts == (if is_online(old.online, from) {
                            seq![ActionView::Send(from, rid, payload)]
                        } else {
                            Seq::empty()
                        }))
                },
            }
}

/// What a direct submit of `text` to `dest` under id `id` at time `now`
/// does, taking engine state `old` to `new` with sends `acts`: the text is
/// logged as pending, the payload (sealed to the contact's key, or the text
/// in the clear) is queued under `id`, and sent at once when `dest` is online;
/// an encryption failure is recorded.
pub open spec fn direct_submitted(old: EngineView, new: EngineView, id: Seq<u8>, dest: Seq<u8>, text: Seq<char>, now: i64, acts: Seq<ActionView>) -> bool {
    let pk = contact_public_key(old.store.contacts, dest);
    &&& new.me == old.me
    &&& new.online == old.online
    &&& new.enc_public == old.enc_public
    &&& new.enc_secret == old.enc_secret
    &&& new.store.contacts == old.store.contacts
    &&& new.store.groups == old.store.groups
    &&& new.fallbacks == note_fallback(old.fallbacks, id, direct_falls_back(pk))
    &&& exists|p: int, payload: Seq<u8>|
        direct_payload_ok(payload, pk, encode_utf8(text))
        && 0 <= p <= old.store.log.len()
        && new.store.log == old.store.log.insert(p, MessageView {
            id: id,
            from: old.me,
            to: RecipientView::Direct(dest),
            content: ContentView::Text(text),
            timestamp: now,
            status: MessageStatus::Pending,
        })
        && new.store.pending == queue_upsert(old.store.pending, PendingView {
            msg_id: id,
            destination: dest,
            payload: payload,
            enqueued_at: now,
            attempts: 0,
        })
        && acts == (if is_online(old.online, dest) {
            seq![ActionView::Send(dest, id, payload)]
        } else {
            Seq::empty()
        })
}

/// Mathematical form of the engine.
pub struct EngineView {
    pub store: StoreView,
    pub me: Seq<u8>,
    pub enc_public: Seq<u8>,
    pub enc_secret: Seq<u8>,
    pub online: Seq<Seq<u8>>,
    /// Ids of messages whose bytes went out in the clear because
    /// encryption failed, oldest first.
    pub fallbacks: Seq<Seq<u8>>,
}

/// The delivery engine of one node.
pub struct Engine {
    store: Store,
    me: NodeId,
    enc_public: Vec<u8>,
    enc_secret: Vec<u8>,
    online: Vec<NodeId>,
    fallbacks: Vec<MessageId>,
}

impl View for Engine {
    type V = EngineView;

    closed spec fn view(&self) -> EngineView {
        EngineView {
            store: self.store@,
            me: self.me@,
            enc_public: self.enc_public@,
            enc_secret: self.enc_secret@,
            online: self.online@.map_values(|n: NodeId| n@),
            fallbacks: self.fallbacks@.map_values(|m: MessageId| m@),
        }
    }
}

/// The sealed-box payload for a contact key, or the bytes in the clear;
/// with whether that was an encryption failure.
fn direct_payload(pk: &Vec<u8>, plain: &[u8]) -> (r: (Vec<u8>, bool))
    ensures
        direct_payload_ok(r.0@, pk@, plain@),
        r.1 == direct_falls_back(pk@),
{
    match ed25519_pk_to_x25519(pk) {
        Ok(x) => match encrypt_message(plain, &x) {
            Ok(c) => (c, false),
            Err(_) => (vstd::slice::slice_to_vec(plain), true),
        },
        Err(_) => (vstd::slice::slice_to_vec(plain), pk.len() > 0),
    }
}

/// The group payload under a key, or the bytes in the clear; with whether
/// that was an encryption failure.
fn group_payload(key: &Vec<u8>, plain: &[u8]) -> (r: (Vec<u8>, bool))
    ensures
        group_payload_ok(r.0@, key@, plain@),
        r.1 == (key@.len() != 32),
{
    match encrypt_for_group(plain, key) {
        Ok(c) => (c, false),
        Err(_) => (vstd::slice::slice_to_vec(plain), true),
    }
}

impl Engine {
    /// Whether the engine's store keeps its rules.
    pub closed spec fn wf(&self) -> bool {
        &&& self.store.wf()
        &&& forall|i: int, j: int| 0 <= i < j < self@.online.len() ==> self@.online[i] != self@.online[j]
    }

    /// An engine for node `me` with its X25519 key pair over a store; no
    /// peer is connected.
    pub fn new(store: Store, me: NodeId, enc_public: Vec<u8>, enc_secret: Vec<u8>) -> (r: Engine)
        requires
            store.wf(),
        ensures
            r.wf(),
            r@.store == store@,
            r@.me == me@,
            r@.enc_public == enc_public@,
            r@.enc_secret == enc_secret@,
            r@.online.len() == 0,
            r@.fallbacks.len() == 0,
    {
        let e = Engine { store, me, enc_public, enc_secret, online: Vec::new(), fallbacks: Vec::new() };
        assert(e@.online =~= Seq::<Seq<u8>>::empty());
        assert(e@.fallbacks =~= Seq::<Seq<u8>>::empty());
        e
    }

    /// Ids of messages whose bytes went out in the clear because encryption
    /// failed, oldest first.
    pub fn clear_fallbacks(&self) -> (r: Vec<MessageId>)
        ensures
            r@.map_values(|m: MessageId| m@) == self@.fallbacks,
    {
        let mut out: Vec<MessageId> = Vec::new();
        let mut i: usize = 0;
        while i < self.fallbacks.len()
            invariant
                i <= self.fallbacks@.len(),
                out@.len() == i,
                forall|k: int| 0 <= k < i ==> out@[k] == self.fallbacks@[k],
            decreases self.fallbacks@.len() - i,
        {
            out.push(self.fallbacks[i]);
            i = i + 1;
        }
        assert(out@.map_values(|m: MessageId| m@) =~= self@.fallbacks);
        out
    }

    /// The store.
    pub fn store(&self) -> (r: &Store)
        ensures
            r@ == self@.store,
            self.wf() ==> r.wf(),
    {
        &self.store
    }

    /// Gives the store back.
    pub fn into_store(self) -> (r: Store)
        ensures
            r@ == self@.store,
            self.wf() ==> r.wf(),
    {
        self.store
    }

    fn online_index(&self, peer: &NodeId) -> (r: Option<usize>)
        ensures
            match r {
                Some(i) => i < self@.online.len() && self@.online[i as int] == peer@,
                None => !is_online(self@.online, peer@),
            },
    {
        let mut i: usize = 0;
        while i < self.online.len()
            invariant
                i <= self.online@.len(),
                self@.online.len() == self.online@.len(),
                forall|k: int| 0 <= k < i ==> self@.online[k] != peer@,
            decreases self.online@.len() - i,
        {
            if self.online[i].same(peer) {
                return Some(i);
            }
            i = i + 1;
        }
        None
    }

    /// Whether a peer is connected.
    pub fn is_connected(&self, peer: &NodeId) -> (r: bool)
        ensures
            r == is_online(self@.online, peer@),
    {
        self.online_index(peer).is_some()
    }

    /// The state of a peer.
    pub fn peer_state(&self, peer: &NodeId) -> (r: PeerState)
        requires
            self.wf(),
        ensures
            r == peer_state_spec(self@.store.contacts, self@.online, peer@),
    {
        if self.store.is_blocked(peer) {
            PeerState::Dropped
        } else if self.is_connected(peer) {
            PeerState::Online
        } else if self.store.get_contact(peer).is_some() {
            PeerState::Offline
        } else {
            PeerState::Unknown
        }
    }
}


impl Engine {
    /// Submits a text to a contact under message id `id`: logs it as
    /// pending, seals it to the contact's key (in the clear when that key is
    /// unknown, or unusable, which is recorded as a fallback), queues the
    /// bytes durably under `id` and, when the contact is online, sends them at
    /// once. The queue entry stays until the transport reports the handover.
    pub fn submit_direct_as(&mut self, id: MessageId, dest: &NodeId, text: String, now: i64) -> (r: Result<Vec<Action>, EngineError>)
        requires
            old(self).wf(),
        ensures
            final(self).wf(),
            !has_contact(old(self)@.store.contacts, dest@) ==> r == Err::<Vec<Action>, EngineError>(EngineError::NotFound),
            is_blocked(old(self)@.store.contacts, dest@) ==> r == Err::<Vec<Action>, EngineError>(EngineError::Blocked),
            r is Err ==> final(self)@ == old(self)@,
            has_contact(old(self)@.store.contacts, dest@) && !is_blocked(old(self)@.store.contacts, dest@)
                && crate::store::logged(old(self)@.store.log, id@)
                ==> r == Err::<Vec<Action>, EngineError>(EngineError::Store(StoreError::AlreadyExists)),
            r is Ok <==> has_contact(old(self)@.store.contacts, dest@) && !is_blocked(old(self)@.store.contacts, dest@)
                && !crate::store::logged(old(self)@.store.log, id@),
            r is Ok ==> direct_submitted(old(self)@, final(self)@, id@, dest@, text@, now, action_views(r.unwrap()@)),
    {
        let contact = match self.store.get_contact(dest) {
            Some(c) => c,
            None => return Err(EngineError::NotFound),
        };
        let ghost ci = choose|i: int| contact_at(old(self)@.store.contacts, i, dest@) && old(self)@.store.contacts[i] == contact@;
        proof {
            assert forall|k: int| contact_at(old(self)@.store.contacts, k, dest@) implies k == ci by {
                if k < ci {
                    assert(old(self)@.store.contacts[k].peer_id != old(self)@.store.contacts[ci].peer_id);
                } else if k > ci {
                    assert(old(self)@.store.contacts[ci].peer_id != old(self)@.store.contacts[k].peer_id);
                }
            }
            assert(contact_public_key(old(self)@.store.contacts, dest@) == contact@.public_key);
        }
        match contact.trust_level {
            TrustLevel::Blocked => return Err(EngineError::Blocked),
            _ => {},
        }
        let plain = text.as_str().as_bytes();
        let (payload, failed) = direct_payload(&contact.public_key, plain);
        let msg = Message {
            id,
            from: self.me.copy(),
            to: Recipient::Direct(dest.copy()),
            content: MessageContent::Text(text),
            timestamp: now,
            status: MessageStatus::Pending,
        };
        let ghost mv = msg@;
        assert(plain@ == encode_utf8(text@));
        let ghost old_log = self@.store.log;
        match self.store.insert_message(msg) {
            Ok(()) => {},
            Err(e) => return Err(EngineError::Store(e)),
        }
        let ghost p = choose|p: int|
                0 <= p <= old_log.len() && self@.store.log == old_log.insert(p, mv)
                    && (forall|k: int| 0 <= k < p ==> old_log[k].timestamp <= mv.timestamp)
                    && (forall|k: int| p <= k < old_log.len() ==> old_log[k].timestamp > mv.timestamp);
        self.store.queue_pending_message(&id, dest, payload.as_slice(), now);
        if failed {
            self.fallbacks.push(id);
        }
        assert(self@.fallbacks =~= note_fallback(old(self)@.fallbacks, id@, failed));
        assert(self@.online =~= old(self)@.online);
        let mut actions: Vec<Action> = Vec::new();
        let ghost pv = payload@;
        if self.is_connected(dest) {
            actions.push(Action::Send { to: dest.copy(), msg_id: id, payload });
            assert(actions@.map_values(|a: Action| a@) =~= seq![ActionView::Send(dest@, id@, pv)]);
        } else {
            assert(actions@.map_values(|a: Action| a@) =~= Seq::<ActionView>::empty());
        }
        assert(direct_payload_ok(pv, contact_public_key(old(self)@.store.contacts, dest@), encode_utf8(text@)));
        assert(self@.store.log == old(self)@.store.log.insert(p, mv));
        Ok(actions)
    }

    /// Submits a text to a contact under a fresh message id; the effects are
    /// those of `submit_direct_as` under the id returned. Fails with
    /// `AlreadyExists` only when the fresh id is logged already, which an
    /// empty log rules out.
    pub fn submit_direct(&mut self, dest: &NodeId, text: String, now: i64) -> (r: Result<(MessageId, Vec<Action>), EngineError>)
        requires
            old(self).wf(),
        ensures
            final(self).wf(),
            !has_contact(old(self)@.store.contacts, dest@) ==> r == Err::<(MessageId, Vec<Action>), EngineError>(EngineError::NotFound),
            is_blocked(old(self)@.store.contacts, dest@) ==> r == Err::<(MessageId, Vec<Action>), EngineError>(EngineError::Blocked),
            r is Err ==> final(self)@ == old(self)@,
            r is Err && has_contact(old(self)@.store.contacts, dest@) && !is_blocked(old(self)@.store.contacts, dest@)
                ==> r == Err::<(MessageId, Vec<Action>), EngineError>(EngineError::Store(StoreError::AlreadyExists))
                && old(self)@.store.log.len() > 0,
            r is Ok ==> direct_submitted(old(self)@, final(self)@, r.unwrap().0@, dest@, text@, now, action_views(r.unwrap().1@)),
    {
        let id = fresh_id();
        match self.submit_direct_as(id, dest, text, now) {
            Ok(actions) => Ok((id, actions)),
            Err(e) => Err(e),
        }
    }

    /// A transport `Connected` event: the peer goes online, its contact's
    /// last-seen time becomes `now`, and its pending entries are handed to
    /// the transport in queue order. Each stays queued until the transport
    /// reports its handover (`on_handed_over`) and counts an attempt when the
    /// send fails (`on_send_failed`). A blocked peer is ignored.
    pub fn on_connected(&mut self, peer: &NodeId, now: i64) -> (r: Vec<Action>)
        requires
            old(self).wf(),
        ensures
            final(self).wf(),
            final(self)@.me == old(self)@.me,
            final(self)@.enc_public == old(self)@.enc_public,
            final(self)@.enc_secret == old(self)@.enc_secret,
            connected_effect(old(self)@, final(self)@, peer@, now, r@.map_values(|a: Action| a@)),
    {
        if self.store.is_blocked(peer) {
            return Vec::new();
        }
        let ghost o = self@.online;
        if self.online_index(peer).is_none() {
            self.online.push(peer.copy());
            assert(self@.online =~= o.push(peer@));
            assert(self@.online[o.len() as int] == peer@);
            assert forall|q: Seq<u8>| q != peer@ implies (is_online(self@.online, q) == is_online(o, q)) by {
                if is_online(self@.online, q) {
                    let k = choose|k: int| 0 <= k < self@.online.len() && self@.online[k] == q;
                    assert(o[k] == q);
                }
                if is_online(o, q) {
                    let k = choose|k: int| 0 <= k < o.len() && o[k] == q;
                    assert(self@.online[k] == q);
                }
            }
        }
        let ghost s0 = self@.store;
        self.store.update_last_seen(peer, now);
        let entries = self.store.pending_entries_for_peer(peer);
        assert(self@.fallbacks =~= old(self)@.fallbacks);
        let ghost es = entries@.map_values(|e: PendingOutbound| e@);
        assert(es == pending_for_spec(s0.pending, peer@));
        let mut actions: Vec<Action> = Vec::new();
        let mut i: usize = 0;
        while i < entries.len()
            invariant
                i <= entries@.len(),
                es == entries@.map_values(|e: PendingOutbound| e@),
                actions@.len() == i,
                forall|k: int| 0 <= k < i ==> #[trigger] actions@[k]@ == ActionView::Send(peer@, es[k].msg_id, es[k].payload),
            decreases entries@.len() - i,
        {
            actions.push(Action::Send { to: peer.copy(), msg_id: entries[i].msg_id, payload: crate::types::copy_bytes(&entries[i].payload) });
            i = i + 1;
        }
        assert(actions@.map_values(|a: Action| a@) =~= es.map_values(|e: PendingView| ActionView::Send(peer@, e.msg_id, e.payload)));
        assert(is_online(self@.online, peer@));
        actions
    }

    /// A transport `Disconnected` event: the peer goes offline.
    pub fn on_disconnected(&mut self, peer: &NodeId)
        requires
            old(self).wf(),
        ensures
            final(self).wf(),
            final(self)@.store == old(self)@.store,
            final(self)@.me == old(self)@.me,
            final(self)@.enc_public == old(self)@.enc_public,
            final(self)@.enc_secret == old(self)@.enc_secret,
            final(self)@.fallbacks == old(self)@.fallbacks,
            !is_online(final(self)@.online, peer@),
            forall|q: Seq<u8>| q != peer@ ==> (is_online(final(self)@.online, q) == is_online(old(self)@.online, q)),
    {
        let ghost o = self@.online;
        match self.online_index(peer) {
            Some(i) => {
                self.online.remove(i);
                assert(self@.online =~= o.remove(i as int));
                assert forall|q: Seq<u8>| q != peer@ implies (is_online(self@.online, q) == is_online(o, q)) by {
                    if is_online(self@.online, q) {
                        let k = choose|k: int| 0 <= k < self@.online.len() && self@.online[k] == q;
                        if k < i { assert(o[k] == q); } else { assert(o[k + 1] == q); }
                    }
                    if is_online(o, q) {
                        let k = choose|k: int| 0 <= k < o.len() && o[k] == q;
                        if k < i { assert(self@.online[k] == q); } else { assert(self@.online[k - 1] == q); }
                    }
                }
                assert forall|k: int| 0 <= k < self@.online.len() implies self@.online[k] != peer@ by {
                    if k < i {
                        assert(self@.online[k] == o[k]);
                    } else {
                        assert(self@.online[k] == o[k + 1]);
                    }
                }
                assert forall|a: int, b: int| 0 <= a < b < self@.online.len() implies self@.online[a] != self@.online[b] by {
                    let ma = if a < i { a } else { a + 1 };
                    let mb = if b < i { b } else { b + 1 };
                    assert(self@.online[a] == o[ma] && self@.online[b] == o[mb]);
                }
            },
            None => {},
        }
    }
}

/// Queue after upserting each entry in turn.
pub open spec fn upsert_all(q: Seq<PendingView>, entries: Seq<PendingView>) -> Seq<PendingView>
    decreases entries.len(),
{
    if entries.len() == 0 {
        q
    } else {
        queue_upsert(upsert_all(q, entries.drop_last()), entries.last())
    }
}

/// Whether some entry of `s` has message id `id`.
pub open spec fn id_in(s: Seq<PendingView>, id: Seq<u8>) -> bool {
    exists|j: int| 0 <= j < s.len() && s[j].msg_id == id
}

proof fn lemma_upsert_all_ids(q: Seq<PendingView>, es: Seq<PendingView>)
    ensures
        forall|k: int| 0 <= k < upsert_all(q, es).len() ==> id_in(q, #[trigger] upsert_all(q, es)[k].msg_id)
            || id_in(es, upsert_all(q, es)[k].msg_id),
    decreases es.len(),
{
    if es.len() > 0 {
        let init = es.drop_last();
        let e = es.last();
        lemma_upsert_all_ids(q, init);
        let t = upsert_all(q, init);
        let x = upsert_all(q, es);
        assert forall|k: int| 0 <= k < x.len() implies id_in(q, #[trigger] x[k].msg_id) || id_in(es, x[k].msg_id) by {
            let from_t = |m: Seq<u8>| id_in(q, m) || id_in(init, m);
            if crate::store::has_pending(t, e.msg_id) {
                let i = choose|i: int| crate::store::pending_key_at(t, i, e.msg_id);
                if k < t.len() - 1 {
                    let m = if k < i { k } else { k + 1 };
                    assert(x[k] == t[m]);
                    assert(from_t(t[m].msg_id));
                } else {
                    assert(x[k] == e);
                    assert(es[es.len() - 1].msg_id == e.msg_id);
                }
            } else {
                if k < t.len() {
                    assert(x[k] == t[k]);
                    assert(from_t(t[k].msg_id));
                } else {
                    assert(x[k] == e);
                    assert(es[es.len() - 1].msg_id == e.msg_id);
                }
            }
            if id_in(init, x[k].msg_id) {
                let j = choose|j: int| 0 <= j < init.len() && init[j].msg_id == x[k].msg_id;
                assert(es[j] == init[j]);
            }
        }
    }
}

/// Flush order: when the queue holds nothing for `peer` and entries for
/// `peer` with distinct message ids, none of them already queued, are
/// queued one after another (as successive submits under fresh ids do), the
/// flush on the next connection sends their payloads in the order they were
/// queued.
pub proof fn lemma_flush_in_submit_order(q: Seq<PendingView>, peer: Seq<u8>, entries: Seq<PendingView>)
    requires
        pending_for_spec(q, peer).len() == 0,
        forall|i: int| 0 <= i < entries.len() ==> #[trigger] entries[i].destination == peer,
        forall|i: int, j: int| 0 <= i < j < entries.len() ==> entries[i].msg_id != entries[j].msg_id,
        forall|i: int| 0 <= i < entries.len() ==> !id_in(q, #[trigger] entries[i].msg_id),
    ensures
        pending_for_spec(upsert_all(q, entries), peer) == entries,
        flush_sends(upsert_all(q, entries), peer) == entries.map_values(|e: PendingView| ActionView::Send(peer, e.msg_id, e.payload)),
    decreases entries.len(),
{
    if entries.len() == 0 {
        assert(pending_for_spec(q, peer) =~= entries);
    } else {
        let init = entries.drop_last();
        let e = entries.last();
        assert forall|i: int| 0 <= i < init.len() implies #[trigger] init[i].destination == peer by {
            assert(init[i] == entries[i]);
        }
        lemma_flush_in_submit_order(q, peer, init);
        let q0 = upsert_all(q, init);
        assert forall|i: int| 0 <= i < init.len() implies !id_in(q, #[trigger] init[i].msg_id) by {
            assert(init[i] == entries[i]);
        }
        if crate::store::has_pending(q0, e.msg_id) {
            let i = choose|i: int| crate::store::pending_key_at(q0, i, e.msg_id);
            lemma_upsert_all_ids(q, init);
            assert(id_in(q, q0[i].msg_id) || id_in(init, q0[i].msg_id));
            assert(!id_in(q, entries[entries.len() - 1].msg_id));
            if id_in(init, q0[i].msg_id) {
                let j = choose|j: int| 0 <= j < init.len() && init[j].msg_id == q0[i].msg_id;
                assert(entries[j] == init[j]);
            }
            assert(false);
        }
        assert(upsert_all(q, entries) == q0.push(e));
        assert(q0.push(e).drop_last() =~= q0);
        assert(pending_for_spec(q0.push(e), peer) =~= entries);
    }
    assert(flush_sends(upsert_all(q, entries), peer) =~= entries.map_values(|e: PendingView| ActionView::Send(peer, e.msg_id, e.payload)));
}


/// The queue entries of a group send: one per member other than `me`, in
/// member order, the entry of member `k` queued under `qids[k]`.
pub open spec fn member_entries(members: Seq<Seq<u8>>, me: Seq<u8>, qids: Seq<Seq<u8>>, payload: Seq<u8>, now: i64) -> Seq<PendingView>
    decreases members.len(),
{
    if members.len() == 0 {
        Seq::empty()
    } else if members.last() == me {
        member_entries(members.drop_last(), me, qids, payload, now)
    } else {
        member_entries(members.drop_last(), me, qids, payload, now).push(
            PendingView { msg_id: qids[members.len() - 1], destination: members.last(), payload, enqueued_at: now, attempts: 0 },
        )
    }
}

/// The immediate sends of a group send: to each online member other than
/// `me`, in member order, under the member's queue id.
pub open spec fn member_sends(members: Seq<Seq<u8>>, me: Seq<u8>, online: Seq<Seq<u8>>, qids: Seq<Seq<u8>>, payload: Seq<u8>) -> Seq<ActionView>
    decreases members.len(),
{
    if members.len() == 0 {
        Seq::empty()
    } else if members.last() == me || !is_online(online, members.last()) {
        member_sends(members.drop_last(), me, online, qids, payload)
    } else {
        member_sends(members.drop_last(), me, online, qids, payload).push(
            ActionView::Send(members.last(), qids[members.len() - 1], payload),
        )
    }
}

/// What a group submit of `text` to group `gid` under log id `id` and
/// queue ids `qids` at time `now` does, taking engine state `old` to `new`
/// with sends `acts`: the text is logged as pending to the group, one
/// payload (a secret box under the group key, or the text in the clear) is
/// queued for each member other than us under its queue id, and sent at
/// once to those online; an encryption failure is recorded.
pub open spec fn group_submitted(
    old: EngineView,
    new: EngineView,
    id: Seq<u8>,
    qids: Seq<Seq<u8>>,
    gid: Seq<u8>,
    text: Seq<char>,
    now: i64,
    acts: Seq<ActionView>,
) -> bool {
    let g = group_of(old.store.groups, gid);
    &&& new.me == old.me
    &&& new.online == old.online
    &&& new.enc_public == old.enc_public
    &&& new.enc_secret == old.enc_secret
    &&& new.store.contacts == old.store.contacts
    &&& new.store.groups == old.store.groups
    &&& new.fallbacks == note_fallback(old.fallbacks, id, g.symmetric_key.len() != 32)
    &&& exists|p: int, payload: Seq<u8>|
        group_payload_ok(payload, g.symmetric_key, encode_utf8(text))
        && 0 <= p <= old.store.log.len()
        && new.store.log == old.store.log.insert(p, MessageView {
            id: id,
            from: old.me,
            to: RecipientView::Group(gid),
            content: ContentView::Text(text),
            timestamp: now,
            status: MessageStatus::Pending,
        })
        && new.store.pending == upsert_all(old.store.pending, member_entries(g.members, old.me, qids, payload, now))
        && acts == member_sends(g.members, old.me, old.online, qids, payload)
}

proof fn lemma_upsert_all_push(q: Seq<PendingView>, entries: Seq<PendingView>, e: PendingView)
    ensures
        upsert_all(q, entries.push(e)) == queue_upsert(upsert_all(q, entries), e),
{
    assert(entries.push(e).drop_last() =~= entries);
}

impl Engine {
    /// Submits a text to a group under log id `id`: logs it as pending,
    /// encrypts it once under the group key (in the clear when that key is
    /// unusable, which is recorded as a fallback), queues one entry per member
    /// other than us, member `k` under `queue_ids[k]`, and sends at once to the
    /// members that are online. Fails with `MissingQueueIds` when there are
    /// fewer queue ids than members.
    pub fn submit_group_as(&mut self, id: MessageId, queue_ids: &Vec<MessageId>, group_id: &MessageId, text: String, now: i64) -> (r: Result<Vec<Action>, EngineError>)
        requires
            old(self).wf(),
        ensures
            final(self).wf(),
            !has_group(old(self)@.store.groups, group_id@) ==> r == Err::<Vec<Action>, EngineError>(EngineError::NotFound),
            has_group(old(self)@.store.groups, group_id@)
                && queue_ids@.len() < group_of(old(self)@.store.groups, group_id@).members.len()
                ==> r == Err::<Vec<Action>, EngineError>(EngineError::MissingQueueIds),
            has_group(old(self)@.store.groups, group_id@)
                && queue_ids@.len() >= group_of(old(self)@.store.groups, group_id@).members.len()
                && crate::store::logged(old(self)@.store.log, id@)
                ==> r == Err::<Vec<Action>, EngineError>(EngineError::Store(StoreError::AlreadyExists)),
            r is Err ==> final(self)@ == old(self)@,
            r is Ok <==> has_group(old(self)@.store.groups, group_id@)
                && queue_ids@.len() >= group_of(old(self)@.store.groups, group_id@).members.len()
                && !crate::store::logged(old(self)@.store.log, id@),
            r is Ok ==> group_submitted(old(self)@, final(self)@, id@, queue_ids@.map_values(|q: MessageId| q@),
                group_id@, text@, now, action_views(r.unwrap()@)),
    {
        let group = match self.store.get_group(group_id) {
            Some(g) => g,
            None => return Err(EngineError::NotFound),
        };
        let ghost gi = choose|i: int| crate::store::group_at(old(self)@.store.groups, i, group_id@) && old(self)@.store.groups[i] == group@;
        proof {
            assert forall|k: int| crate::store::group_at(old(self)@.store.groups, k, group_id@) implies k == gi by {
                if k < gi {
                    assert(old(self)@.store.groups[k].id != old(self)@.store.groups[gi].id);
                } else if k > gi {
                    assert(old(self)@.store.groups[gi].id != old(self)@.store.groups[k].id);
                }
            }
            assert(group_of(old(self)@.store.groups, group_id@) == group@);
        }
        if queue_ids.len() < group.members.len() {
            return Err(EngineError::MissingQueueIds);
        }
        let ghost qids = queue_ids@.map_values(|q: MessageId| q@);
        let plain = text.as_str().as_bytes();
        let (payload, failed) = group_payload(&group.symmetric_key, plain);
        assert(plain@ == encode_utf8(text@));
        let msg = Message {
            id,
            from: self.me.copy(),
            to: Recipient::Group(*group_id),
            content: MessageContent::Text(text),
            timestamp: now,
            status: MessageStatus::Pending,
        };
        let ghost mv = msg@;
        let ghost old_log = self@.store.log;
        match self.store.insert_message(msg) {
            Ok(()) => {},
            Err(e) => return Err(EngineError::Store(e)),
        }
        let ghost p = choose|p: int|
                0 <= p <= old_log.len() && self@.store.log == old_log.insert(p, mv)
                    && (forall|k: int| 0 <= k < p ==> old_log[k].timestamp <= mv.timestamp)
                    && (forall|k: int| p <= k < old_log.len() ==> old_log[k].timestamp > mv.timestamp);
        if failed {
            self.fallbacks.push(id);
        }
        assert(self@.fallbacks =~= note_fallback(old(self)@.fallbacks, id@, failed));
        assert(self@.online =~= old(self)@.online);
        let ghost q0 = self@.store.pending;
        let ghost members = group@.members;
        let ghost me = self@.me;
        let ghost pv = payload@;
        let ghost fb = self@.fallbacks;
        let mut actions: Vec<Action> = Vec::new();
        let mut i: usize = 0;
        while i < group.members.len()
            invariant
                self.wf(),
                i <= group.members@.len(),
                members == group@.members,
                members.len() == group.members@.len(),
                members.len() <= queue_ids@.len(),
                qids == queue_ids@.map_values(|q: MessageId| q@),
                me == self@.me,
                pv == payload@,
                self@.fallbacks == fb,
                self@.me == old(self)@.me,
                self@.online == old(self)@.online,
                self@.enc_public == old(self)@.enc_public,
                self@.enc_secret == old(self)@.enc_secret,
                self@.store.contacts == old(self)@.store.contacts,
                self@.store.groups == old(self)@.store.groups,
                self@.store.log == old_log.insert(p, mv),
                self@.store.pending == upsert_all(q0, member_entries(members.subrange(0, i as int), me, qids, pv, now)),
                actions@.map_values(|a: Action| a@) == member_sends(members.subrange(0, i as int), me, old(self)@.online, qids, pv),
            decreases group.members@.len() - i,
        {
            let ghost sub = members.subrange(0, i as int + 1);
            assert(sub.drop_last() =~= members.subrange(0, i as int));
            assert(sub.last() == members[i as int]);
            assert(sub.len() - 1 == i as int);
            let m = &group.members[i];
            let qid = queue_ids[i];
            assert(qid@ == qids[i as int]);
            if !m.same(&self.me) {
                let ghost e = PendingView { msg_id: qid@, destination: m@, payload: pv, enqueued_at: now, attempts: 0 };
                self.store.queue_pending_message(&qid, m, payload.as_slice(), now);
                assert(self@.online =~= old(self)@.online);
                assert(self@.fallbacks =~= fb);
                proof {
                    lemma_upsert_all_push(q0, member_entries(members.subrange(0, i as int), me, qids, pv, now), e);
                }
                if self.is_connected(m) {
                    let ghost a0 = actions@.map_values(|a: Action| a@);
                    actions.push(Action::Send { to: m.copy(), msg_id: qid, payload: crate::types::copy_bytes(&payload) });
                    assert(actions@.map_values(|a: Action| a@) =~= a0.push(ActionView::Send(m@, qid@, pv)));
                }
            }
            i = i + 1;
        }
        assert(members.subrange(0, members.len() as int) =~= members);
        assert(group_payload_ok(pv, group_of(old(self)@.store.groups, group_id@).symmetric_key, encode_utf8(text@)));
        assert(0 <= p <= old(self)@.store.log.len());
        Ok(actions)
    }

    /// Submits a text to a group under a fresh log id and fresh queue ids;
    /// the effects are those of `submit_group_as` under the ids used. Fails
    /// with `AlreadyExists` only when the fresh log id is logged already,
    /// which an empty log rules out.
    pub fn submit_group(&mut self, group_id: &MessageId, text: String, now: i64) -> (r: Result<(MessageId, Vec<Action>), EngineError>)
        requires
            old(self).wf(),
        ensures
            final(self).wf(),
            !has_group(old(self)@.store.groups, group_id@) ==> r == Err::<(MessageId, Vec<Action>), EngineError>(EngineError::NotFound),
            r is Err ==> final(self)@ == old(self)@,
            r is Err && has_group(old(self)@.store.groups, group_id@)
                ==> r == Err::<(MessageId, Vec<Action>), EngineError>(EngineError::Store(StoreError::AlreadyExists))
                && old(self)@.store.log.len() > 0,
            r is Ok ==> exists|qids: Seq<Seq<u8>>| #[trigger] group_submitted(old(self)@, final(self)@, r.unwrap().0@, qids,
                group_id@, text@, now, action_views(r.unwrap().1@)),
    {
        let group = match self.store.get_group(group_id) {
            Some(g) => g,
            None => return Err(EngineError::NotFound),
        };
        let ghost gi = choose|i: int| crate::store::group_at(old(self)@.store.groups, i, group_id@) && old(self)@.store.groups[i] == group@;
        proof {
            assert forall|k: int| crate::store::group_at(old(self)@.store.groups, k, group_id@) implies k == gi by {
                if k < gi {
                    assert(old(self)@.store.groups[k].id != old(self)@.store.groups[gi].id);
                } else if k > gi {
                    assert(old(self)@.store.groups[gi].id != old(self)@.store.groups[k].id);
                }
            }
            assert(group_of(old(self)@.store.groups, group_id@) == group@);
        }
        let mut queue_ids: Vec<MessageId> = Vec::new();
        let mut i: usize = 0;
        while i < group.members.len()
            invariant
                i <= group.members@.len(),
                queue_ids@.len() == i,
            decreases group.members@.len() - i,
        {
            queue_ids.push(fresh_id());
            i = i + 1;
        }
        let id = fresh_id();
        assert(queue_ids@.len() >= group_of(old(self)@.store.groups, group_id@).members.len());
        let ghost tv = text@;
        let res = self.submit_group_as(id, &queue_ids, group_id, text, now);
        let ghost qids = queue_ids@.map_values(|q: MessageId| q@);
        match res {
            Ok(actions) => {
                assert(group_submitted(old(self)@, self@, id@, qids, group_id@, tv, now, action_views(actions@)));
                let out: Result<(MessageId, Vec<Action>), EngineError> = Ok((id, actions));
                assert(action_views(out.unwrap().1@) == action_views(actions@));
                assert(group_submitted(old(self)@, self@, out.unwrap().0@, qids, group_id@, tv, now, action_views(out.unwrap().1@)));
                assert(tv == text@);
                out
            },
            Err(e) => {
                proof {
                    if crate::store::logged(old(self)@.store.log, id@) {
                        let k = choose|k: int| 0 <= k < old(self)@.store.log.len() && old(self)@.store.log[k].id == id@;
                    }
                }
                Err(e)
            },
        }
    }

    /// The transport accepted the bytes queued under `msg_id`: the entry
    /// leaves the queue and the logged message with that id, if any, is
    /// marked sent (unless it is further along already).
    pub fn on_handed_over(&mut self, msg_id: &MessageId) -> (r: bool)
        requires
            old(self).wf(),
        ensures
            final(self).wf(),
            r == crate::store::has_pending(old(self)@.store.pending, msg_id@),
            final(self)@.store.pending == crate::store::pending_removed(old(self)@.store.pending, msg_id@),
            final(self)@.store.log == apply_status(old(self)@.store.log, msg_id@, MessageStatus::Sent),
            final(self)@.store.contacts == old(self)@.store.contacts,
            final(self)@.store.groups == old(self)@.store.groups,
            final(self)@.online == old(self)@.online,
            final(self)@.me == old(self)@.me,
            final(self)@.enc_public == old(self)@.enc_public,
            final(self)@.enc_secret == old(self)@.enc_secret,
            final(self)@.fallbacks == old(self)@.fallbacks,
    {
        let r = self.store.remove_pending_message(msg_id);
        self.store.update_message_status(msg_id, MessageStatus::Sent);
        assert(self@.online =~= old(self)@.online);
        assert(self@.fallbacks =~= old(self)@.fallbacks);
        r
    }

    /// The transport failed to deliver the bytes queued under `msg_id`: the
    /// entry stays and counts one more attempt (saturating).
    pub fn on_send_failed(&mut self, msg_id: &MessageId) -> (r: bool)
        requires
            old(self).wf(),
        ensures
            final(self).wf(),
            r == crate::store::has_pending(old(self)@.store.pending, msg_id@),
            !r ==> final(self)@ == old(self)@,
            r ==> exists|i: int|
                crate::store::pending_key_at(old(self)@.store.pending, i, msg_id@) && final(self)@.store.pending
                    == old(self)@.store.pending.update(
                    i,
                    PendingView {
                        attempts: if old(self)@.store.pending[i].attempts == u32::MAX {
                            u32::MAX
                        } else {
                            (old(self)@.store.pending[i].attempts + 1) as u32
                        },
                        ..old(self)@.store.pending[i]
                    },
                ),
            final(self)@.store.contacts == old(self)@.store.contacts,
            final(self)@.store.groups == old(self)@.store.groups,
            final(self)@.store.log == old(self)@.store.log,
            final(self)@.online == old(self)@.online,
            final(self)@.me == old(self)@.me,
            final(self)@.enc_public == old(self)@.enc_public,
            final(self)@.enc_secret == old(self)@.enc_secret,
            final(self)@.fallbacks == old(self)@.fallbacks,
    {
        let ghost q = self@.store.pending;
        let r = self.store.increment_pending_attempts(msg_id);
        proof {
            if r {
                let i = choose|i: int|
                    crate::store::pending_key_at(q, i, msg_id@) && self@.store.pending == q.update(
                        i,
                        PendingView {
                            attempts: if q[i].attempts == u32::MAX { u32::MAX } else { (q[i].attempts + 1) as u32 },
                            ..q[i]
                        },
                    );
                assert(crate::store::pending_key_at(old(self)@.store.pending, i, msg_id@));
            }
        }
        assert(self@.online =~= old(self)@.online);
        assert(self@.fallbacks =~= old(self)@.fallbacks);
        r
    }

    /// Invites a contact to a group: the contact becomes a member and, when
    /// its public key is known and usable, an invite carrying the group key
    /// sealed to it is queued (and sent at once when it is online).
    pub fn invite(&mut self, group_id: &MessageId, peer: &NodeId, now: i64) -> (r: Result<Vec<Action>, EngineError>)
        requires
            old(self).wf(),
        ensures
            final(self).wf(),
            final(self)@.online == old(self)@.online,
            final(self)@.me == old(self)@.me,
            final(self)@.enc_public == old(self)@.enc_public,
            final(self)@.enc_secret == old(self)@.enc_secret,
            final(self)@.store.contacts == old(self)@.store.contacts,
            final(self)@.store.log == old(self)@.store.log,
            !has_group(old(self)@.store.groups, group_id@) ==> r == Err::<Vec<Action>, EngineError>(EngineError::NotFound),
            has_group(old(self)@.store.groups, group_id@) && !has_contact(old(self)@.store.contacts, peer@)
                ==> r == Err::<Vec<Action>, EngineError>(EngineError::NotFound),
            has_group(old(self)@.store.groups, group_id@) && is_blocked(old(self)@.store.contacts, peer@)
                ==> r == Err::<Vec<Action>, EngineError>(EngineError::Blocked),
            r is Err ==> final(self)@ == old(self)@,
            r is Ok <==> has_group(old(self)@.store.groups, group_id@) && has_contact(old(self)@.store.contacts, peer@)
                && !is_blocked(old(self)@.store.contacts, peer@),
            final(self)@.fallbacks == old(self)@.fallbacks,
            r is Ok ==> exists|g: int| crate::store::group_at(old(self)@.store.groups, g, group_id@)
                && final(self)@.store.groups == old(self)@.store.groups.update(g,
                    if crate::types::has_member(old(self)@.store.groups[g].members, peer@) {
                        old(self)@.store.groups[g]
                    } else {
                        GroupView { members: old(self)@.store.groups[g].members.push(peer@), ..old(self)@.store.groups[g] }
                    })
                && (!key_usable(contact_public_key(old(self)@.store.contacts, peer@))
                    ==> final(self)@.store.pending == old(self)@.store.pending && r.unwrap()@.len() == 0)
                && (key_usable(contact_public_key(old(self)@.store.contacts, peer@)) ==> exists|iid: Seq<u8>, sealed: Seq<u8>|
                        sealed_to(sealed, old(self)@.store.groups[g].symmetric_key,
                            ed25519_pk_to_curve(contact_public_key(old(self)@.store.contacts, peer@)).unwrap())
                        && final(self)@.store.pending == queue_upsert(old(self)@.store.pending, PendingView {
                            msg_id: iid,
                            destination: peer@,
                            payload: emit_spec(FrameView::Invite(encode_utf8(old(self)@.store.groups[g].name),
                                group_id@, sealed)),
                            enqueued_at: now,
                            attempts: 0,
                        })
                        && r.unwrap()@.map_values(|a: Action| a@) == (if is_online(old(self)@.online, peer@) {
                            seq![ActionView::Send(peer@, iid, emit_spec(FrameView::Invite(encode_utf8(old(self)@.store.groups[g].name),
                                group_id@, sealed)))]
                        } else {
                            Seq::empty()
                        })),
    {
        let group = match self.store.get_group(group_id) {
            Some(g) => g,
            None => return Err(EngineError::NotFound),
        };
        let contact = match self.store.get_contact(peer) {
            Some(c) => c,
            None => return Err(EngineError::NotFound),
        };
        let ghost gi = choose|i: int| crate::store::group_at(old(self)@.store.groups, i, group_id@) && old(self)@.store.groups[i] == group@;
        let ghost ci = choose|i: int| contact_at(old(self)@.store.contacts, i, peer@) && old(self)@.store.contacts[i] == contact@;
        proof {
            assert forall|k: int| contact_at(old(self)@.store.contacts, k, peer@) implies k == ci by {
                if k < ci {
                    assert(old(self)@.store.contacts[k].peer_id != old(self)@.store.contacts[ci].peer_id);
                } else if k > ci {
                    assert(old(self)@.store.contacts[ci].peer_id != old(self)@.store.contacts[k].peer_id);
                }
            }
        }
        match contact.trust_level {
            TrustLevel::Blocked => return Err(EngineError::Blocked),
            _ => {},
        }
        let ghost gs = self@.store.groups;
        let _ = self.store.add_group_member(group_id, peer);
        proof {
            let j = choose|j: int| crate::store::group_at(gs, j, group_id@) && self@.store.groups == gs.update(j,
                if crate::types::has_member(gs[j].members, peer@) {
                    gs[j]
                } else {
                    GroupView { members: gs[j].members.push(peer@), ..gs[j] }
                });
            if j != gi {
                if j < gi { assert(gs[j].id != gs[gi].id); } else { assert(gs[gi].id != gs[j].id); }
            }
        }
        assert(self@.online =~= old(self)@.online);
        assert(contact_public_key(old(self)@.store.contacts, peer@) == contact@.public_key);
        let x = match ed25519_pk_to_x25519(&contact.public_key) {
            Ok(x) => x,
            Err(_) => return Ok(Vec::new()),
        };
        let sealed = match encrypt_message(group.symmetric_key.as_slice(), &x) {
            Ok(c) => c,
            Err(_) => return Ok(Vec::new()),
        };
        let frame = crate::wire::create_invite(group.name.as_str().as_bytes(), group_id, sealed.as_slice());
        let iid = fresh_id();
        self.store.queue_pending_message(&iid, peer, frame.as_slice(), now);
        assert(self@.online =~= old(self)@.online);
        let mut actions: Vec<Action> = Vec::new();
        let ghost fv = frame@;
        if self.is_connected(peer) {
            actions.push(Action::Send { to: peer.copy(), msg_id: iid, payload: frame });
            assert(actions@.map_values(|a: Action| a@) =~= seq![ActionView::Send(peer@, iid@, fv)]);
        } else {
            assert(actions@.map_values(|a: Action| a@) =~= Seq::<ActionView>::empty());
        }
        assert(contact_at(old(self)@.store.contacts, ci, peer@));
        assert(contact_public_key(old(self)@.store.contacts, peer@) == contact@.public_key);
        Ok(actions)
    }

    /// The inbound decrypt chain on `data`, with the id of the group whose
    /// key opened it, if one did.
    fn inbound_plain(&self, data: &[u8]) -> (r: (Vec<u8>, Option<MessageId>))
        ensures
            r.0@ == inbound_plaintext(self@.store.groups, data@, self@.enc_public, self@.enc_secret),
            match first_group_opening(self@.store.groups, data@) {
                Some((gid, _)) => r.1 is Some && r.1.unwrap()@ == gid,
                None => r.1 is None,
            },
    {
        let groups = self.store.list_groups();
        let ghost gs = groups@.map_values(|g: Group| g@);
        assert(gs == self@.store.groups);
        let mut i: usize = 0;
        assert(gs.subrange(0, gs.len() as int) =~= gs);
        while i < groups.len()
            invariant
                i <= groups@.len(),
                gs == groups@.map_values(|g: Group| g@),
                gs == self@.store.groups,
                first_group_opening(gs, data@) == first_group_opening(gs.subrange(i as int, gs.len() as int), data@),
            decreases groups@.len() - i,
        {
            let ghost rest = gs.subrange(i as int, gs.len() as int);
            assert(rest[0] == gs[i as int]);
            assert(rest.drop_first() =~= gs.subrange(i as int + 1, gs.len() as int));
            match decrypt_from_group(data, &groups[i].symmetric_key) {
                Ok(m) => {
                    assert(groups@[i as int]@.symmetric_key == gs[i as int].symmetric_key);
                    assert(groups@[i as int]@.id == gs[i as int].id);
                    assert(first_group_opening(rest, data@) == Some((gs[i as int].id, m@)));
                    return (m, Some(groups[i].id));
                },
                Err(_) => {},
            }
            i = i + 1;
        }
        assert(gs.subrange(i as int, gs.len() as int) =~= Seq::<GroupView>::empty());
        match decrypt_message(data, &self.enc_public, &self.enc_secret) {
            Ok(m) => (m, None),
            Err(_) => (vstd::slice::slice_to_vec(data), None),
        }
    }
}


/// The groups after accepting an invite to group `gid` named `name` from
/// `from` whose key opened to `key`: an existing group takes the key and
/// gains `from` as a member; otherwise a new group is added, unless its name
/// is taken.
pub open spec fn groups_after_invite(gs: Seq<GroupView>, from: Seq<u8>, name: Seq<char>, gid: Seq<u8>, key: Seq<u8>, now: i64) -> Seq<GroupView> {
    if has_group(gs, gid) {
        let i = choose|i: int| crate::store::group_at(gs, i, gid);
        gs.update(i, GroupView {
            symmetric_key: key,
            members: if crate::types::has_member(gs[i].members, from) {
                gs[i].members
            } else {
                gs[i].members.push(from)
            },
            ..gs[i]
        })
    } else if has_group_named(gs, name) {
        gs
    } else {
        gs.push(GroupView { id: gid, name, members: seq![from], symmetric_key: key, created_at: now })
    }
}

impl Engine {
    /// Accepts an invite: opens the sealed group key with our key pair and,
    /// when it opens, records the group with that key and `from` as member.
    fn accept_invite(&mut self, from: &NodeId, name: &Vec<u8>, group_id: &MessageId, sealed_key: &Vec<u8>, now: i64)
        requires
            old(self).wf(),
        ensures
            final(self).wf(),
            final(self)@.store.contacts == old(self)@.store.contacts,
            final(self)@.store.log == old(self)@.store.log,
            final(self)@.store.pending == old(self)@.store.pending,
            final(self)@.online == old(self)@.online,
            final(self)@.me == old(self)@.me,
            final(self)@.enc_public == old(self)@.enc_public,
            final(self)@.enc_secret == old(self)@.enc_secret,
            final(self)@.fallbacks == old(self)@.fallbacks,
            final(self)@.store.groups == match direct_decrypt_spec(sealed_key@, old(self)@.enc_public, old(self)@.enc_secret) {
                Ok(key) => groups_after_invite(old(self)@.store.groups, from@, utf8_lossy_of(name@), group_id@, key, now),
                Err(_) => old(self)@.store.groups,
            },
    {
        let key = match decrypt_message(sealed_key.as_slice(), &self.enc_public, &self.enc_secret) {
            Ok(k) => k,
            Err(_) => return,
        };
        let ghost gs = self@.store.groups;
        let group_name = utf8_lossy(name.as_slice());
        if self.store.set_group_key(group_id, &key) {
            let ghost gs1 = self@.store.groups;
            let ghost i = choose|i: int| crate::store::group_at(gs, i, group_id@) && gs1 == gs.update(i,
                GroupView { symmetric_key: key@, ..gs[i] });
            proof {
                let j = choose|j: int| crate::store::group_at(gs, j, group_id@);
                if j != i {
                    if j < i { assert(gs[j].id != gs[i].id); } else { assert(gs[i].id != gs[j].id); }
                }
            }
            assert(crate::store::group_at(gs1, i, group_id@));
            let r = self.store.add_group_member(group_id, from);
            proof {
                let j = choose|j: int| crate::store::group_at(gs1, j, group_id@) && self@.store.groups == gs1.update(j,
                    if crate::types::has_member(gs1[j].members, from@) {
                        gs1[j]
                    } else {
                        GroupView { members: gs1[j].members.push(from@), ..gs1[j] }
                    });
                assert(crate::store::groups_wf(gs1));
                assert(gs1[i].id == group_id@);
                if j != i {
                    if j < i { assert(gs1[j].id != gs1[i].id); } else { assert(gs1[i].id != gs1[j].id); }
                }
                assert(self@.store.groups =~= groups_after_invite(gs, from@, group_name@, group_id@, key@, now));
            }
        } else {
            let mut members: Vec<NodeId> = Vec::new();
            members.push(from.copy());
            let g = Group { id: *group_id, name: group_name, members, symmetric_key: key, created_at: now };
            assert(g@.members =~= seq![from@]);
            let _ = self.store.create_group(g);
        }
        assert(self@.online =~= old(self)@.online);
        assert(self@.fallbacks =~= old(self)@.fallbacks);
    }

    /// A transport `Received` event. What a blocked peer sends is dropped.
    /// Otherwise the bytes go through the decrypt chain (group keys, our key
    /// pair, the clear) and the codec: a receipt updates the status of the
    /// message it names; an invite records the group; a text is logged as
    /// delivered under id `local` (unless that id is logged already) and
    /// answered with a delivery receipt, queued for the sender under id `rid`
    /// and sent at once when it is online.
    pub fn on_received_as(&mut self, from: &NodeId, data: &[u8], now: i64, local: MessageId, rid: MessageId) -> (r: Vec<Action>)
        requires
            old(self).wf(),
        ensures
            final(self).wf(),
            final(self)@.online == old(self)@.online,
            final(self)@.me == old(self)@.me,
            final(self)@.enc_public == old(self)@.enc_public,
            final(self)@.enc_secret == old(self)@.enc_secret,
            final(self)@.store.contacts == old(self)@.store.contacts,
            received_effect(old(self)@, final(self)@, from@, data@, now, local@, rid@, action_views(r@)),
    {
        if self.store.is_blocked(from) {
            return Vec::new();
        }
        let (plain, group) = self.inbound_plain(data);
        match classify(plain.as_slice()) {
            Frame::Receipt(id, k) => {
                let status = match k {
                    ReceiptType::Delivered => MessageStatus::Delivered,
                    ReceiptType::Read => MessageStatus::Read,
                };
                self.store.update_message_status(&id, status);
                assert(self@.online =~= old(self)@.online);
                assert(self@.fallbacks =~= old(self)@.fallbacks);
                Vec::new()
            },
            Frame::Invite { name, group_id, sealed_key } => {
                self.accept_invite(from, &name, &group_id, &sealed_key, now);
                Vec::new()
            },
            Frame::Text(bytes) => {
                let text = utf8_lossy(bytes.as_slice());
                let to = match group {
                    Some(gid) => Recipient::Group(gid),
                    None => Recipient::Direct(self.me.copy()),
                };
                let msg = Message {
                    id: local,
                    from: from.copy(),
                    to,
                    content: MessageContent::Text(text),
                    timestamp: now,
                    status: MessageStatus::Delivered,
                };
                let ghost mv = msg@;
                let ghost old_log = self@.store.log;
                match self.store.insert_message(msg) {
                    Ok(()) => {},
                    Err(_) => return Vec::new(),
                }
                let ghost p = choose|p: int|
                        0 <= p <= old_log.len() && self@.store.log == old_log.insert(p, mv)
                            && (forall|k: int| 0 <= k < p ==> old_log[k].timestamp <= mv.timestamp)
                            && (forall|k: int| p <= k < old_log.len() ==> old_log[k].timestamp > mv.timestamp);
                let receipt = create_receipt(&local, ReceiptType::Delivered);
                assert(self@.online =~= old(self)@.online);
                let key = self.contact_key(from);
                let (payload, failed) = direct_payload(&key, receipt.as_slice());
                self.store.queue_pending_message(&rid, from, payload.as_slice(), now);
                if failed {
                    self.fallbacks.push(rid);
                }
                assert(self@.fallbacks =~= note_fallback(old(self)@.fallbacks, rid@, failed));
                assert(self@.online =~= old(self)@.online);
                let mut actions: Vec<Action> = Vec::new();
                let ghost pv = payload@;
                if self.is_connected(from) {
                    actions.push(Action::Send { to: from.copy(), msg_id: rid, payload });
                    assert(actions@.map_values(|a: Action| a@) =~= seq![ActionView::Send(from@, rid@, pv)]);
                } else {
                    assert(actions@.map_values(|a: Action| a@) =~= Seq::<ActionView>::empty());
                }
                actions
            },
        }
    }

    /// A transport `Received` event, with fresh ids for the logged text and
    /// its receipt; see `on_received_as` for the effects.
    pub fn on_received(&mut self, from: &NodeId, data: &[u8], now: i64) -> (r: Vec<Action>)
        requires
            old(self).wf(),
        ensures
            final(self).wf(),
            exists|local: Seq<u8>, rid: Seq<u8>| #[trigger] received_effect(old(self)@, final(self)@, from@, data@, now, local, rid, action_views(r@)),
    {
        let local = fresh_id();
        let rid = fresh_id();
        let r = self.on_received_as(from, data, now, local, rid);
        assert(received_effect(old(self)@, self@, from@, data@, now, local@, rid@, action_views(r@)));
        r
    }

    /// The raw public key of a contact, or nothing when it is not a contact.
    fn contact_key(&self, peer: &NodeId) -> (r: Vec<u8>)
        requires
            self.wf(),
        ensures
            r@ == contact_public_key(self@.store.contacts, peer@),
    {
        match self.store.get_contact(peer) {
            Some(c) => {
                proof {
                    let i = choose|i: int| contact_at(self@.store.contacts, i, peer@) && self@.store.contacts[i] == c@;
                    let j = choose|j: int| contact_at(self@.store.contacts, j, peer@);
                    if i != j {
                        if i < j { assert(self@.store.contacts[i].peer_id != self@.store.contacts[j].peer_id); }
                        else { assert(self@.store.contacts[j].peer_id != self@.store.contacts[i].peer_id); }
                    }
                }
                c.public_key
            },
            None => Vec::new(),
        }
    }
}

/// The key a receipt to `peer` is sealed to: the contact's public key, or
/// none when `peer` is not a contact.
pub open spec fn contact_public_key(cs: Seq<ContactView>, peer: Seq<u8>) -> Seq<u8> {
    if has_contact(cs, peer) {
        cs[choose|i: int| contact_at(cs, i, peer)].public_key
    } else {
        Seq::empty()
    }
}


/// Restart: putting back, in order, the saved entries of a queue (whose keys
/// are unique, as every queue's are) into an empty queue gives the same
/// queue, entry for entry and byte for byte.
pub proof fn lemma_restore_reproduces_queue(saved: Seq<PendingView>)
    requires
        crate::store::pending_keys_unique(saved),
    ensures
        upsert_all(Seq::empty(), saved) == saved,
    decreases saved.len(),
{
    if saved.len() > 0 {
        let init = saved.drop_last();
        let e = saved.last();
        assert(crate::store::pending_keys_unique(init));
        lemma_restore_reproduces_queue(init);
        if crate::store::has_pending(init, e.msg_id) {
            let i = choose|i: int| crate::store::pending_key_at(init, i, e.msg_id);
            assert(saved[i] == init[i]);
            assert(false);
        }
        assert(init.push(e) =~= saved);
    }
}

} // verus!
