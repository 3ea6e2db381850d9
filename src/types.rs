//! Identifiers and records shared by every component.

use vstd::prelude::*;

verus! {

/// Byte-wise equality of two byte vectors.
pub fn bytes_equal(a: &Vec<u8>, b: &Vec<u8>) -> (r: bool)
    ensures
        r == (a@ == b@),
{
    if a.len() != b.len() {
        return false;
    }
    let mut i: usize = 0;
    while i < a.len()
        invariant
            a@.len() == b@.len(),
            i <= a@.len(),
            forall|k: int| 0 <= k < i ==> a@[k] == b@[k],
        decreases a@.len() - i,
    {
        if a[i] != b[i] {
            return false;
        }
        i = i + 1;
    }
    assert(a@ =~= b@);
    true
}

/// A copy of a byte vector with the same contents.
pub fn copy_bytes(a: &Vec<u8>) -> (r: Vec<u8>)
    ensures
        r@ == a@,
{
    let mut out: Vec<u8> = Vec::new();
    let mut i: usize = 0;
    while i < a.len()
        invariant
            i <= a@.len(),
            out@ == a@.subrange(0, i as int),
        decreases a@.len() - i,
    {
        out.push(a[i]);
        i = i + 1;
    }
    assert(out@ =~= a@);
    out
}

/// A 128-bit identifier in the UUID layout: messages and groups carry one.
#[derive(Clone, Copy, Debug, PartialEq, Eq, Hash)]
pub struct MessageId {
    pub bytes: [u8; 16],
}

impl View for MessageId {
    type V = Seq<u8>;

    open spec fn view(&self) -> Seq<u8> {
        self.bytes@
    }
}

impl MessageId {
    /// Whether two identifiers hold the same bytes.
    pub fn same(&self, other: &MessageId) -> (r: bool)
        ensures
            r == (self@ == other@),
    {
        let mut i: usize = 0;
        while i < 16
            invariant
                i <= 16,
                self@.len() == 16,
                other@.len() == 16,
                forall|k: int| 0 <= k < i ==> self@[k] == other@[k],
            decreases 16 - i,
        {
            if self.bytes[i] != other.bytes[i] {
                return false;
            }
            i = i + 1;
        }
        assert(self@ =~= other@);
        true
    }
}

} // verus!

verus! {

/// Kind of a receipt.
#[derive(Clone, Copy, Debug, PartialEq, Eq, Structural)]
pub enum ReceiptType {
    Delivered,
    Read,
}

} // verus!

verus! {

/// Trust level of a contact.
#[derive(Clone, Copy, Debug, PartialEq, Eq, Structural)]
pub enum TrustLevel {
    Unknown,
    Verified,
    Trusted,
    Blocked,
}

/// Status of a logged message. Along `Pending < Sent < Delivered < Read` it
/// only moves forward; `Failed` is terminal but can be retried.
#[derive(Clone, Debug)]
pub enum MessageStatus {
    Pending,
    Sent,
    Delivered,
    Read,
    Failed(String),
}

/// Position of a status along `Pending < Sent < Delivered < Read`; `None`
/// for `Failed`.
pub open spec fn status_rank(s: MessageStatus) -> Option<int> {
    match s {
        MessageStatus::Pending => Some(0),
        MessageStatus::Sent => Some(1),
        MessageStatus::Delivered => Some(2),
        MessageStatus::Read => Some(3),
        MessageStatus::Failed(_) => None,
    }
}

/// Whether an update to `incoming` takes effect on a message whose status is
/// `current`: forward along the order, a failure before delivery, or a retry
/// of a failed message.
pub open spec fn status_update_applies(current: MessageStatus, incoming: MessageStatus) -> bool {
    match (status_rank(current), status_rank(incoming)) {
        (Some(c), Some(n)) => c < n,
        (Some(c), None) => c <= 1,
        (None, _) => true,
    }
}

/// Priority of a status: higher is more final.
pub fn status_priority(status: &MessageStatus) -> (r: u8)
    ensures
        match status_rank(*status) {
            Some(k) => r as int == k,
            None => r == 4,
        },
{
    match status {
        MessageStatus::Pending => 0,
        MessageStatus::Sent => 1,
        MessageStatus::Delivered => 2,
        MessageStatus::Read => 3,
        MessageStatus::Failed(_) => 4,
    }
}

/// Whether an update from `current` to `incoming` takes effect.
pub fn update_applies(current: &MessageStatus, incoming: &MessageStatus) -> (r: bool)
    ensures
        r == status_update_applies(*current, *incoming),
{
    match current {
        MessageStatus::Failed(_) => true,
        _ => match incoming {
            MessageStatus::Failed(_) => status_priority(current) <= 1,
            _ => status_priority(current) < status_priority(incoming),
        },
    }
}

/// Whether a message still has to reach its peer (pending or sent).
pub fn status_needs_sync(status: &MessageStatus) -> (r: bool)
    ensures
        r == (status_rank(*status) == Some(0int) || status_rank(*status) == Some(1int)),
{
    match status {
        MessageStatus::Pending | MessageStatus::Sent => true,
        _ => false,
    }
}

/// A copy of a status.
pub fn copy_status(s: &MessageStatus) -> (r: MessageStatus)
    ensures
        r == *s,
{
    match s {
        MessageStatus::Pending => MessageStatus::Pending,
        MessageStatus::Sent => MessageStatus::Sent,
        MessageStatus::Delivered => MessageStatus::Delivered,
        MessageStatus::Read => MessageStatus::Read,
        MessageStatus::Failed(reason) => MessageStatus::Failed(reason.clone()),
    }
}

/// Relies on uuid's `Uuid::new_v4`: a random version-4 id.
#[verifier::external_body]
pub(crate) fn fresh_id() -> (r: MessageId) {
    MessageId { bytes: *uuid::Uuid::new_v4().as_bytes() }
}

/// Relies on chrono's `Utc::now`: the current time in seconds since the epoch.
#[verifier::external_body]
pub(crate) fn now_seconds() -> (r: i64) {
    chrono::Utc::now().timestamp()
}

/// Stable identifier of a node: the encoded peer id derived from its public
/// signing key.
#[derive(Clone, Debug, Hash)]
pub struct NodeId {
    pub bytes: Vec<u8>,
}

impl View for NodeId {
    type V = Seq<u8>;

    open spec fn view(&self) -> Seq<u8> {
        self.bytes@
    }
}

impl PartialEq for NodeId {
    fn eq(&self, other: &NodeId) -> (r: bool) {
        bytes_equal(&self.bytes, &other.bytes)
    }
}

impl vstd::std_specs::cmp::PartialEqSpecImpl for NodeId {
    open spec fn obeys_eq_spec() -> bool {
        true
    }

    open spec fn eq_spec(&self, other: &NodeId) -> bool {
        self@ == other@
    }
}

impl Eq for NodeId {
}

impl NodeId {
    /// A node id over the given encoded bytes.
    pub fn from_bytes(bytes: Vec<u8>) -> (r: NodeId)
        ensures
            r@ == bytes@,
    {
        NodeId { bytes }
    }

    /// Whether two node ids are the same.
    pub fn same(&self, other: &NodeId) -> (r: bool)
        ensures
            r == (self@ == other@),
    {
        bytes_equal(&self.bytes, &other.bytes)
    }

    /// A copy of this id.
    pub fn copy(&self) -> (r: NodeId)
        ensures
            r@ == self@,
    {
        NodeId { bytes: copy_bytes(&self.bytes) }
    }
}

/// An address-book entry.
#[derive(Clone, Debug)]
pub struct Contact {
    pub peer_id: NodeId,
    pub alias: String,
    /// Raw public signing key; empty until learned.
    pub public_key: Vec<u8>,
    pub trust_level: TrustLevel,
    /// Seconds since the epoch of the last connection, if any.
    pub last_seen: Option<i64>,
}

pub struct ContactView {
    pub peer_id: Seq<u8>,
    pub alias: Seq<char>,
    pub public_key: Seq<u8>,
    pub trust_level: TrustLevel,
    pub last_seen: Option<i64>,
}

impl View for Contact {
    type V = ContactView;

    open spec fn view(&self) -> ContactView {
        ContactView {
            peer_id: self.peer_id@,
            alias: self.alias@,
            public_key: self.public_key@,
            trust_level: self.trust_level,
            last_seen: self.last_seen,
        }
    }
}

impl Contact {
    /// A new contact of unknown trust, never seen.
    pub fn new(peer_id: NodeId, alias: String, public_key: Vec<u8>) -> (r: Contact)
        ensures
            r@ == (ContactView {
                peer_id: peer_id@,
                alias: alias@,
                public_key: public_key@,
                trust_level: TrustLevel::Unknown,
                last_seen: None,
            }),
    {
        Contact { peer_id, alias, public_key, trust_level: TrustLevel::Unknown, last_seen: None }
    }

    /// A copy of this contact.
    pub fn copy(&self) -> (r: Contact)
        ensures
            r@ == self@,
    {
        Contact {
            peer_id: self.peer_id.copy(),
            alias: self.alias.clone(),
            public_key: copy_bytes(&self.public_key),
            trust_level: self.trust_level,
            last_seen: self.last_seen,
        }
    }
}

/// Destination of a message.
#[derive(Clone, Debug)]
pub enum Recipient {
    Direct(NodeId),
    Group(MessageId),
}

pub enum RecipientView {
    Direct(Seq<u8>),
    Group(Seq<u8>),
}

impl View for Recipient {
    type V = RecipientView;

    open spec fn view(&self) -> RecipientView {
        match self {
            Recipient::Direct(n) => RecipientView::Direct(n@),
            Recipient::Group(g) => RecipientView::Group(g@),
        }
    }
}

impl Recipient {
    pub fn copy(&self) -> (r: Recipient)
        ensures
            r@ == self@,
    {
        match self {
            Recipient::Direct(n) => Recipient::Direct(n.copy()),
            Recipient::Group(g) => Recipient::Group(*g),
        }
    }
}

/// Content of a message.
#[derive(Clone, Debug)]
pub enum MessageContent {
    Text(String),
    Receipt(MessageId, ReceiptType),
}

pub enum ContentView {
    Text(Seq<char>),
    Receipt(Seq<u8>, ReceiptType),
}

impl View for MessageContent {
    type V = ContentView;

    open spec fn view(&self) -> ContentView {
        match self {
            MessageContent::Text(t) => ContentView::Text(t@),
            MessageContent::Receipt(id, k) => ContentView::Receipt(id@, *k),
        }
    }
}

impl MessageContent {
    pub fn copy(&self) -> (r: MessageContent)
        ensures
            r@ == self@,
    {
        match self {
            MessageContent::Text(t) => MessageContent::Text(t.clone()),
            MessageContent::Receipt(id, k) => MessageContent::Receipt(*id, *k),
        }
    }
}

/// An entry of the message log.
#[derive(Clone, Debug)]
pub struct Message {
    pub id: MessageId,
    pub from: NodeId,
    pub to: Recipient,
    pub content: MessageContent,
    /// Seconds since the epoch.
    pub timestamp: i64,
    pub status: MessageStatus,
}

pub struct MessageView {
    pub id: Seq<u8>,
    pub from: Seq<u8>,
    pub to: RecipientView,
    pub content: ContentView,
    pub timestamp: i64,
    pub status: MessageStatus,
}

impl View for Message {
    type V = MessageView;

    open spec fn view(&self) -> MessageView {
        MessageView {
            id: self.id@,
            from: self.from@,
            to: self.to@,
            content: self.content@,
            timestamp: self.timestamp,
            status: self.status,
        }
    }
}

impl Message {
    /// A pending text message with a fresh id, stamped now.
    pub fn new_text(from: NodeId, to: Recipient, text: String) -> (r: Message)
        ensures
            r@.from == from@,
            r@.to == to@,
            r@.content == ContentView::Text(text@),
            r@.status == MessageStatus::Pending,
    {
        Message {
            id: fresh_id(),
            from,
            to,
            content: MessageContent::Text(text),
            timestamp: now_seconds(),
            status: MessageStatus::Pending,
        }
    }

    /// A pending receipt for `message_id`, with a fresh id, stamped now.
    pub fn new_receipt(from: NodeId, to: Recipient, message_id: MessageId, receipt_type: ReceiptType) -> (r: Message)
        ensures
            r@.from == from@,
            r@.to == to@,
            r@.content == ContentView::Receipt(message_id@, receipt_type),
            r@.status == MessageStatus::Pending,
    {
        Message {
            id: fresh_id(),
            from,
            to,
            content: MessageContent::Receipt(message_id, receipt_type),
            timestamp: now_seconds(),
            status: MessageStatus::Pending,
        }
    }

    pub fn copy(&self) -> (r: Message)
        ensures
            r@ == self@,
    {
        Message {
            id: self.id,
            from: self.from.copy(),
            to: self.to.copy(),
            content: self.content.copy(),
            timestamp: self.timestamp,
            status: copy_status(&self.status),
        }
    }
}

/// An outbound payload awaiting handoff to the transport. It holds bytes
/// that are already encrypted.
#[derive(Clone, Debug)]
pub struct PendingOutbound {
    pub msg_id: MessageId,
    pub destination: NodeId,
    pub payload: Vec<u8>,
    pub enqueued_at: i64,
    pub attempts: u32,
}

pub struct PendingView {
    pub msg_id: Seq<u8>,
    pub destination: Seq<u8>,
    pub payload: Seq<u8>,
    pub enqueued_at: i64,
    pub attempts: u32,
}

impl View for PendingOutbound {
    type V = PendingView;

    open spec fn view(&self) -> PendingView {
        PendingView {
            msg_id: self.msg_id@,
            destination: self.destination@,
            payload: self.payload@,
            enqueued_at: self.enqueued_at,
            attempts: self.attempts,
        }
    }
}

impl PendingOutbound {
    pub fn copy(&self) -> (r: PendingOutbound)
        ensures
            r@ == self@,
    {
        PendingOutbound {
            msg_id: self.msg_id,
            destination: self.destination.copy(),
            payload: copy_bytes(&self.payload),
            enqueued_at: self.enqueued_at,
            attempts: self.attempts,
        }
    }
}

} // verus!

verus! {

/// Whether some member of `members` is `peer`.
pub open spec fn has_member(members: Seq<Seq<u8>>, peer: Seq<u8>) -> bool {
    exists|i: int| 0 <= i < members.len() && members[i] == peer
}

/// A group chat.
#[derive(Clone, Debug)]
pub struct Group {
    pub id: MessageId,
    pub name: String,
    pub members: Vec<NodeId>,
    pub symmetric_key: Vec<u8>,
    pub created_at: i64,
}

pub struct GroupView {
    pub id: Seq<u8>,
    pub name: Seq<char>,
    pub members: Seq<Seq<u8>>,
    pub symmetric_key: Seq<u8>,
    pub created_at: i64,
}

impl View for Group {
    type V = GroupView;

    open spec fn view(&self) -> GroupView {
        GroupView {
            id: self.id@,
            name: self.name@,
            members: self.members@.map_values(|m: NodeId| m@),
            symmetric_key: self.symmetric_key@,
            created_at: self.created_at,
        }
    }
}

fn copy_members(members: &Vec<NodeId>) -> (r: Vec<NodeId>)
    ensures
        r@.map_values(|m: NodeId| m@) == members@.map_values(|m: NodeId| m@),
{
    let mut out: Vec<NodeId> = Vec::new();
    let mut i: usize = 0;
    while i < members.len()
        invariant
            i <= members@.len(),
            out@.len() == i,
            forall|k: int| 0 <= k < i ==> out@[k]@ == members@[k]@,
        decreases members@.len() - i,
    {
        out.push(members[i].copy());
        i = i + 1;
    }
    assert(out@.map_values(|m: NodeId| m@) =~= members@.map_values(|m: NodeId| m@));
    out
}

impl Group {
    /// A new group without members, with a fresh id, created now.
    pub fn new(name: String, symmetric_key: Vec<u8>) -> (r: Group)
        ensures
            r@.name == name@,
            r@.symmetric_key == symmetric_key@,
            r@.members.len() == 0,
    {
        let g = Group {
            id: fresh_id(),
            name,
            members: Vec::new(),
            symmetric_key,
            created_at: now_seconds(),
        };
        assert(g@.members =~= Seq::<Seq<u8>>::empty());
        g
    }

    /// Whether a peer is a member.
    pub fn is_member(&self, peer_id: &NodeId) -> (r: bool)
        ensures
            r == has_member(self@.members, peer_id@),
    {
        let mut i: usize = 0;
        while i < self.members.len()
            invariant
                i <= self.members@.len(),
                forall|k: int| 0 <= k < i ==> self@.members[k] != peer_id@,
            decreases self.members@.len() - i,
        {
            if self.members[i].same(peer_id) {
                assert(self@.members[i as int] == peer_id@);
                return true;
            }
            i = i + 1;
        }
        false
    }

    /// Adds a member unless it is one already.
    pub fn add_member(&mut self, peer_id: NodeId)
        ensures
            has_member(old(self)@.members, peer_id@) ==> final(self)@ == old(self)@,
            !has_member(old(self)@.members, peer_id@) ==> final(self)@ == (GroupView {
                members: old(self)@.members.push(peer_id@),
                ..old(self)@
            }),
    {
        if !self.is_member(&peer_id) {
            self.members.push(peer_id);
            assert(self@.members =~= old(self)@.members.push(peer_id@));
        }
    }

    /// Removes the first occurrence of a member; false if it was none.
    pub fn remove_member(&mut self, peer_id: &NodeId) -> (r: bool)
        ensures
            r == has_member(old(self)@.members, peer_id@),
            !r ==> final(self)@ == old(self)@,
            r ==> exists|i: int|
                0 <= i < old(self)@.members.len() && old(self)@.members[i] == peer_id@
                    && final(self)@ == (GroupView {
                    members: old(self)@.members.remove(i),
                    ..old(self)@
                }),
    {
        let mut i: usize = 0;
        while i < self.members.len()
            invariant
                self@ == old(self)@,
                i <= self.members@.len(),
                forall|k: int| 0 <= k < i ==> self@.members[k] != peer_id@,
            decreases self.members@.len() - i,
        {
            if self.members[i].same(peer_id) {
                let ghost before = self.members@;
                assert(old(self)@.members[i as int] == peer_id@);
                self.members.remove(i);
                assert(self@.members =~= old(self)@.members.remove(i as int)) by {
                    assert(self.members@ =~= before.remove(i as int));
                }
                assert(has_member(old(self)@.members, peer_id@));
                return true;
            }
            i = i + 1;
        }
        false
    }

    pub fn copy(&self) -> (r: Group)
        ensures
            r@ == self@,
    {
        Group {
            id: self.id,
            name: self.name.clone(),
            members: copy_members(&self.members),
            symmetric_key: copy_bytes(&self.symmetric_key),
            created_at: self.created_at,
        }
    }
}

} // verus!
