//! The store model: contacts, groups, the message log and the pending
//! outbound queue, with the uniqueness and ordering rules they keep.
//!
//! The store lives in memory for a session; the application seals a snapshot
//! of it to disk after every change (see `snapshot`).

use vstd::prelude::*;
use crate::types::{has_member, status_rank, Contact, ContactView, Group, GroupView, Message, MessageId, MessageStatus, MessageView, NodeId, PendingOutbound, PendingView, RecipientView, status_update_applies, update_applies, copy_bytes};
use vstd::slice::slice_subrange;
use vstd::utf8::encode_utf8;
use vstd::utf8::encode_utf8_decode_utf8;

verus! {

/// Errors of the store.
#[derive(Clone, Copy, Debug, PartialEq, Eq, Structural)]
pub enum StoreError {
    /// A record with this id, alias or name exists already.
    AlreadyExists,
    /// No record with this id, alias or name.
    NotFound,
}

/// Mathematical form of the store.
pub struct StoreView {
    pub contacts: Seq<ContactView>,
    pub groups: Seq<GroupView>,
    pub log: Seq<MessageView>,
    pub pending: Seq<PendingView>,
}

/// The pending entries addressed to `peer`, in queue order.
pub open spec fn pending_for_spec(q: Seq<PendingView>, peer: Seq<u8>) -> Seq<PendingView>
    decreases q.len(),
{
    if q.len() == 0 {
        Seq::empty()
    } else if q.last().destination == peer {
        pending_for_spec(q.drop_last(), peer).push(q.last())
    } else {
        pending_for_spec(q.drop_last(), peer)
    }
}

/// Whether entry `i` of the queue is the one with message id `id`.
pub open spec fn pending_key_at(q: Seq<PendingView>, i: int, id: Seq<u8>) -> bool {
    0 <= i < q.len() && q[i].msg_id == id
}

/// Whether the queue holds an entry with message id `id`.
pub open spec fn has_pending(q: Seq<PendingView>, id: Seq<u8>) -> bool {
    exists|i: int| pending_key_at(q, i, id)
}

/// The queue after upserting an entry on its message id: the old entry with
/// that id, if any, leaves, and the new one goes to the back.
pub open spec fn queue_upsert(q: Seq<PendingView>, e: PendingView) -> Seq<PendingView> {
    if has_pending(q, e.msg_id) {
        let i = choose|i: int| pending_key_at(q, i, e.msg_id);
        q.remove(i).push(e)
    } else {
        q.push(e)
    }
}

/// Whether log entry ids are unique.
pub open spec fn log_ids_unique(log: Seq<MessageView>) -> bool {
    forall|i: int, j: int| 0 <= i < j < log.len() ==> log[i].id != log[j].id
}

/// Whether the log is ordered by timestamp, oldest first.
pub open spec fn log_sorted(log: Seq<MessageView>) -> bool {
    forall|i: int, j: int| 0 <= i <= j < log.len() ==> log[i].timestamp <= log[j].timestamp
}

/// Whether each message id has at most one pending entry.
pub open spec fn pending_keys_unique(q: Seq<PendingView>) -> bool {
    forall|i: int, j: int| 0 <= i < j < q.len() ==> q[i].msg_id != q[j].msg_id
}

/// Whether a log entry involves `peer`, as sender or as direct recipient.
pub open spec fn involves(m: MessageView, peer: Seq<u8>) -> bool {
    m.from == peer || m.to == RecipientView::Direct(peer)
}

/// The log entries that involve `peer`, newest first.
pub open spec fn newest_first_with(log: Seq<MessageView>, peer: Seq<u8>) -> Seq<MessageView>
    decreases log.len(),
{
    if log.len() == 0 {
        Seq::empty()
    } else if involves(log.last(), peer) {
        seq![log.last()] + newest_first_with(log.drop_last(), peer)
    } else {
        newest_first_with(log.drop_last(), peer)
    }
}

/// Strict lexicographic order on byte strings.
pub open spec fn lex_lt(a: Seq<u8>, b: Seq<u8>) -> bool
    decreases a.len(),
{
    if b.len() == 0 {
        false
    } else if a.len() == 0 {
        true
    } else if a[0] != b[0] {
        a[0] < b[0]
    } else {
        lex_lt(a.drop_first(), b.drop_first())
    }
}

proof fn lemma_lex_transitive(a: Seq<u8>, b: Seq<u8>, c: Seq<u8>)
    requires
        lex_lt(a, b),
        lex_lt(b, c),
    ensures
        lex_lt(a, c),
    decreases a.len(),
{
    if a.len() > 0 && b.len() > 0 && c.len() > 0 && a[0] == b[0] && b[0] == c[0] {
        lemma_lex_transitive(a.drop_first(), b.drop_first(), c.drop_first());
    }
}

proof fn lemma_lex_total(a: Seq<u8>, b: Seq<u8>)
    requires
        a != b,
    ensures
        lex_lt(a, b) || lex_lt(b, a),
    decreases a.len(),
{
    if a.len() > 0 && b.len() > 0 && a[0] == b[0] {
        if a.drop_first() == b.drop_first() {
            assert(a =~= seq![a[0]] + a.drop_first());
            assert(b =~= seq![b[0]] + b.drop_first());
        }
        lemma_lex_total(a.drop_first(), b.drop_first());
    } else if a.len() == 0 && b.len() == 0 {
        assert(a =~= b);
    }
}

/// Sort key of a contact: its alias in UTF-8.
pub open spec fn alias_key(c: ContactView) -> Seq<u8> {
    encode_utf8(c.alias)
}

/// Contacts are ordered by alias, strictly (so aliases are unique), and each
/// node id appears once.
pub open spec fn contacts_wf(cs: Seq<ContactView>) -> bool {
    &&& forall|i: int, j: int| 0 <= i < j < cs.len() ==> lex_lt(alias_key(cs[i]), alias_key(cs[j]))
    &&& forall|i: int, j: int| 0 <= i < j < cs.len() ==> cs[i].peer_id != cs[j].peer_id
}

/// Groups have unique ids and unique names.
pub open spec fn groups_wf(gs: Seq<GroupView>) -> bool {
    &&& forall|i: int, j: int| 0 <= i < j < gs.len() ==> gs[i].id != gs[j].id
    &&& forall|i: int, j: int| 0 <= i < j < gs.len() ==> gs[i].name != gs[j].name
}

/// Whether some contact other than `peer` goes by `alias`.
pub open spec fn alias_taken(cs: Seq<ContactView>, alias: Seq<char>, peer: Seq<u8>) -> bool {
    exists|i: int| 0 <= i < cs.len() && cs[i].alias == alias && cs[i].peer_id != peer
}

/// Whether contact `i` has node id `peer`.
pub open spec fn contact_at(cs: Seq<ContactView>, i: int, peer: Seq<u8>) -> bool {
    0 <= i < cs.len() && cs[i].peer_id == peer
}

/// Whether some contact has node id `peer`.
pub open spec fn has_contact(cs: Seq<ContactView>, peer: Seq<u8>) -> bool {
    exists|i: int| contact_at(cs, i, peer)
}

/// The contacts without the one for `peer`, if any, in order.
pub open spec fn contacts_removed(cs: Seq<ContactView>, peer: Seq<u8>) -> Seq<ContactView> {
    if has_contact(cs, peer) {
        cs.remove(choose|i: int| contact_at(cs, i, peer))
    } else {
        cs
    }
}

proof fn lemma_alias_key_injective(a: ContactView, b: ContactView)
    requires
        alias_key(a) == alias_key(b),
    ensures
        a.alias == b.alias,
{
    encode_utf8_decode_utf8(a.alias);
    encode_utf8_decode_utf8(b.alias);
}

/// Whether two strings are equal.
pub fn str_equal(a: &str, b: &str) -> (r: bool)
    ensures
        r == (a@ == b@),
{
    let x = a.as_bytes();
    let y = b.as_bytes();
    if x.len() != y.len() {
        assert(x@ != y@);
        return false;
    }
    let mut i: usize = 0;
    while i < x.len()
        invariant
            x@.len() == y@.len(),
            x@ == encode_utf8(a@),
            y@ == encode_utf8(b@),
            i <= x@.len(),
            forall|k: int| 0 <= k < i ==> x@[k] == y@[k],
        decreases x@.len() - i,
    {
        if x[i] != y[i] {
            assert(x@ != y@);
            return false;
        }
        i = i + 1;
    }
    assert(x@ =~= y@);
    proof {
        encode_utf8_decode_utf8(a@);
        encode_utf8_decode_utf8(b@);
    }
    true
}

/// Whether byte string `a` sorts strictly before `b`.
fn bytes_lt(a: &[u8], b: &[u8]) -> (r: bool)
    ensures
        r == lex_lt(a@, b@),
    decreases a@.len(),
{
    if b.len() == 0 {
        false
    } else if a.len() == 0 {
        true
    } else if a[0] != b[0] {
        a[0] < b[0]
    } else {
        let a1 = slice_subrange(a, 1, a.len());
        let b1 = slice_subrange(b, 1, b.len());
        assert(a1@ =~= a@.drop_first());
        assert(b1@ =~= b@.drop_first());
        bytes_lt(a1, b1)
    }
}

/// The session store.
pub struct Store {
    contacts: Vec<Contact>,
    groups: Vec<Group>,
    log: Vec<Message>,
    pending: Vec<PendingOutbound>,
}

impl View for Store {
    type V = StoreView;

    closed spec fn view(&self) -> StoreView {
        StoreView {
            contacts: self.contacts@.map_values(|c: Contact| c@),
            groups: self.groups@.map_values(|g: Group| g@),
            log: self.log@.map_values(|m: Message| m@),
            pending: self.pending@.map_values(|p: PendingOutbound| p@),
        }
    }
}

impl Store {
    /// Whether the store keeps its rules: unique keys and ordered records.
    pub open spec fn wf(&self) -> bool {
        &&& log_ids_unique(self@.log)
        &&& log_sorted(self@.log)
        &&& pending_keys_unique(self@.pending)
        &&& contacts_wf(self@.contacts)
        &&& groups_wf(self@.groups)
    }

    /// An empty store.
    pub fn new() -> (r: Store)
        ensures
            r.wf(),
            r@.contacts.len() == 0,
            r@.groups.len() == 0,
            r@.log.len() == 0,
            r@.pending.len() == 0,
    {
        let s = Store { contacts: Vec::new(), groups: Vec::new(), log: Vec::new(), pending: Vec::new() };
        assert(s@.contacts =~= Seq::<ContactView>::empty());
        assert(s@.groups =~= Seq::<GroupView>::empty());
        s
    }
}


/// The queue after removing the entry with message id `id`, if any.
pub open spec fn pending_removed(q: Seq<PendingView>, id: Seq<u8>) -> Seq<PendingView> {
    if has_pending(q, id) {
        q.remove(choose|i: int| pending_key_at(q, i, id))
    } else {
        q
    }
}

proof fn lemma_pending_for_step(q: Seq<PendingView>, i: int, peer: Seq<u8>)
    requires
        0 <= i < q.len(),
    ensures
        pending_for_spec(q.subrange(0, i + 1), peer) == (if q[i].destination == peer {
            pending_for_spec(q.subrange(0, i), peer).push(q[i])
        } else {
            pending_for_spec(q.subrange(0, i), peer)
        }),
{
    assert(q.subrange(0, i + 1).drop_last() =~= q.subrange(0, i));
}

proof fn lemma_newest_first_step(log: Seq<MessageView>, i: int, peer: Seq<u8>)
    requires
        0 < i <= log.len(),
    ensures
        newest_first_with(log.subrange(0, i), peer) == (if involves(log[i - 1], peer) {
            seq![log[i - 1]] + newest_first_with(log.subrange(0, i - 1), peer)
        } else {
            newest_first_with(log.subrange(0, i - 1), peer)
        }),
{
    assert(log.subrange(0, i).drop_last() =~= log.subrange(0, i - 1));
}

/// Whether a message involves `peer`.
fn message_involves(m: &Message, peer: &NodeId) -> (r: bool)
    ensures
        r == involves(m@, peer@),
{
    if m.from.same(peer) {
        return true;
    }
    match &m.to {
        crate::types::Recipient::Direct(n) => n.same(peer),
        crate::types::Recipient::Group(_) => false,
    }
}

impl Store {
    /// Index of the pending entry for message `id` to `dest`.
    fn find_pending(&self, id: &MessageId) -> (r: Option<usize>)
        ensures
            match r {
                Some(i) => pending_key_at(self@.pending, i as int, id@),
                None => !has_pending(self@.pending, id@),
            },
    {
        let mut i: usize = 0;
        while i < self.pending.len()
            invariant
                i <= self.pending@.len(),
                self@.pending.len() == self.pending@.len(),
                forall|k: int| 0 <= k < i ==> !pending_key_at(self@.pending, k, id@),
            decreases self.pending@.len() - i,
        {
            if self.pending[i].msg_id.same(id) {
                return Some(i);
            }
            i = i + 1;
        }
        None
    }

    /// Queues already-encrypted bytes for message `id` to `to_peer`, stamped
    /// `now`, with no attempts yet. An entry with the same message id is
    /// replaced, and the new one goes to the back.
    pub fn queue_pending_message(&mut self, id: &MessageId, to_peer: &NodeId, encrypted_data: &[u8], now: i64)
        requires
            old(self).wf(),
        ensures
            final(self).wf(),
            final(self)@.pending == queue_upsert(
                old(self)@.pending,
                PendingView {
                    msg_id: id@,
                    destination: to_peer@,
                    payload: encrypted_data@,
                    enqueued_at: now,
                    attempts: 0,
                },
            ),
            final(self)@.contacts == old(self)@.contacts,
            final(self)@.groups == old(self)@.groups,
            final(self)@.log == old(self)@.log,
    {
        let ghost q = self@.pending;
        let entry = PendingOutbound {
            msg_id: *id,
            destination: to_peer.copy(),
            payload: vstd::slice::slice_to_vec(encrypted_data),
            enqueued_at: now,
            attempts: 0,
        };
        let ghost e = entry@;
        match self.find_pending(id) {
            Some(i) => {
                proof {
                    assert(pending_key_at(q, i as int, e.msg_id));
                    let j = choose|j: int| pending_key_at(q, j, e.msg_id);
                    assert(j == i as int);
                }
                self.pending.remove(i);
                self.pending.push(entry);
                assert(self@.pending =~= q.remove(i as int).push(e));
            },
            None => {
                self.pending.push(entry);
                assert(self@.pending =~= q.push(e));
            },
        }
        proof {
            lemma_upsert_keeps_unique(q, e);
        }
        assert(self@.contacts =~= old(self)@.contacts);
        assert(self@.groups =~= old(self)@.groups);
        assert(self@.log =~= old(self)@.log);
    }

    /// The pending `(id, bytes)` pairs for `peer`, in queue order.
    pub fn get_pending_for_peer(&self, peer_id: &NodeId) -> (r: Vec<(MessageId, Vec<u8>)>)
        ensures
            r@.len() == pending_for_spec(self@.pending, peer_id@).len(),
            forall|k: int|
                0 <= k < r@.len() ==> r@[k].0@ == pending_for_spec(self@.pending, peer_id@)[k].msg_id
                    && r@[k].1@ == pending_for_spec(self@.pending, peer_id@)[k].payload,
    {
        let ghost q = self@.pending;
        let mut out: Vec<(MessageId, Vec<u8>)> = Vec::new();
        let mut i: usize = 0;
        while i < self.pending.len()
            invariant
                i <= self.pending@.len(),
                q == self@.pending,
                q.len() == self.pending@.len(),
                out@.len() == pending_for_spec(q.subrange(0, i as int), peer_id@).len(),
                forall|k: int|
                    0 <= k < out@.len() ==> out@[k].0@ == pending_for_spec(
                        q.subrange(0, i as int),
                        peer_id@,
                    )[k].msg_id && out@[k].1@ == pending_for_spec(
                        q.subrange(0, i as int),
                        peer_id@,
                    )[k].payload,
            decreases self.pending@.len() - i,
        {
            proof {
                lemma_pending_for_step(q, i as int, peer_id@);
            }
            if self.pending[i].destination.same(peer_id) {
                out.push((self.pending[i].msg_id, copy_bytes(&self.pending[i].payload)));
            }
            i = i + 1;
        }
        assert(q.subrange(0, q.len() as int) =~= q);
        out
    }

    /// The pending entries for `peer`, in queue order; they stay queued.
    pub fn pending_entries_for_peer(&self, peer_id: &NodeId) -> (r: Vec<PendingOutbound>)
        ensures
            r@.map_values(|p: PendingOutbound| p@) == pending_for_spec(self@.pending, peer_id@),
    {
        let ghost q = self@.pending;
        let mut taken: Vec<PendingOutbound> = Vec::new();
        let mut i: usize = 0;
        assert(taken@.map_values(|p: PendingOutbound| p@) =~= pending_for_spec(q.subrange(0, 0), peer_id@));
        while i < self.pending.len()
            invariant
                i <= self.pending@.len(),
                q == self@.pending,
                q.len() == self.pending@.len(),
                taken@.map_values(|p: PendingOutbound| p@) == pending_for_spec(q.subrange(0, i as int), peer_id@),
            decreases self.pending@.len() - i,
        {
            proof {
                lemma_pending_for_step(q, i as int, peer_id@);
            }
            let ghost t0 = taken@;
            let e = self.pending[i].copy();
            if e.destination.same(peer_id) {
                taken.push(e);
                assert(taken@.map_values(|p: PendingOutbound| p@) =~= t0.map_values(|p: PendingOutbound| p@).push(q[i as int]));
            }
            i = i + 1;
        }
        assert(q.subrange(0, q.len() as int) =~= q);
        taken
    }

    /// Removes the pending entry with message id `id`; false if there was
    /// none.
    pub fn remove_pending_message(&mut self, id: &MessageId) -> (r: bool)
        requires
            old(self).wf(),
        ensures
            final(self).wf(),
            r == has_pending(old(self)@.pending, id@),
            final(self)@.pending == pending_removed(old(self)@.pending, id@),
            final(self)@.contacts == old(self)@.contacts,
            final(self)@.groups == old(self)@.groups,
            final(self)@.log == old(self)@.log,
    {
        let ghost q = self@.pending;
        match self.find_pending(id) {
            Some(i) => {
                proof {
                    assert(pending_key_at(q, i as int, id@));
                    let j = choose|j: int| pending_key_at(q, j, id@);
                    assert(j == i as int);
                }
                self.pending.remove(i);
                assert(self@.pending =~= q.remove(i as int));
                assert(self@.contacts =~= old(self)@.contacts);
                assert(self@.groups =~= old(self)@.groups);
                assert(self@.log =~= old(self)@.log);
                true
            },
            None => false,
        }
    }

    /// Every pending entry as `(id, destination, bytes)`, in queue order.
    pub fn get_all_pending(&self) -> (r: Vec<(MessageId, NodeId, Vec<u8>)>)
        ensures
            r@.len() == self@.pending.len(),
            forall|k: int|
                0 <= k < r@.len() ==> r@[k].0@ == self@.pending[k].msg_id && r@[k].1@
                    == self@.pending[k].destination && r@[k].2@ == self@.pending[k].payload,
    {
        let mut out: Vec<(MessageId, NodeId, Vec<u8>)> = Vec::new();
        let mut i: usize = 0;
        while i < self.pending.len()
            invariant
                i <= self.pending@.len(),
                self@.pending.len() == self.pending@.len(),
                out@.len() == i,
                forall|k: int|
                    0 <= k < i ==> out@[k].0@ == self@.pending[k].msg_id && out@[k].1@
                        == self@.pending[k].destination && out@[k].2@ == self@.pending[k].payload,
            decreases self.pending@.len() - i,
        {
            let p = &self.pending[i];
            out.push((p.msg_id, p.destination.copy(), copy_bytes(&p.payload)));
            i = i + 1;
        }
        out
    }

    /// Counts one more delivery attempt for the entry with message id `id`
    /// (saturating); false if there is no such entry.
    pub fn increment_pending_attempts(&mut self, id: &MessageId) -> (r: bool)
        requires
            old(self).wf(),
        ensures
            final(self).wf(),
            r == has_pending(old(self)@.pending, id@),
            !r ==> final(self)@ == old(self)@,
            r ==> exists|i: int|
                pending_key_at(old(self)@.pending, i, id@) && final(self)@.pending
                    == old(self)@.pending.update(
                    i,
                    PendingView {
                        attempts: if old(self)@.pending[i].attempts == u32::MAX {
                            u32::MAX
                        } else {
                            (old(self)@.pending[i].attempts + 1) as u32
                        },
                        ..old(self)@.pending[i]
                    },
                ),
            final(self)@.contacts == old(self)@.contacts,
            final(self)@.groups == old(self)@.groups,
            final(self)@.log == old(self)@.log,
    {
        match self.find_pending(id) {
            Some(i) => {
                let mut e = self.pending[i].copy();
                e.attempts = e.attempts.saturating_add(1);
                let ghost q = self@.pending;
                self.pending.set(i, e);
                assert(self@.pending =~= q.update(i as int, e@));
                assert(self@.contacts =~= old(self)@.contacts);
                assert(self@.groups =~= old(self)@.groups);
                assert(self@.log =~= old(self)@.log);
                true
            },
            None => false,
        }
    }
}

proof fn lemma_upsert_keeps_unique(q: Seq<PendingView>, e: PendingView)
    requires
        pending_keys_unique(q),
    ensures
        pending_keys_unique(queue_upsert(q, e)),
{
    if has_pending(q, e.msg_id) {
        let i = choose|i: int| pending_key_at(q, i, e.msg_id);
        let r0 = q.remove(i);
        assert forall|k: int| 0 <= k < r0.len() implies r0[k].msg_id != e.msg_id by {
            if k < i {
                assert(r0[k] == q[k]);
            } else {
                assert(r0[k] == q[k + 1]);
            }
        }
        assert forall|a: int, b: int| 0 <= a < b < r0.len() implies r0[a].msg_id != r0[b].msg_id by {
            let qa = if a < i { a } else { a + 1 };
            let qb = if b < i { b } else { b + 1 };
            assert(r0[a] == q[qa] && r0[b] == q[qb]);
        }
        let r = r0.push(e);
        assert forall|a: int, b: int| 0 <= a < b < r.len() implies r[a].msg_id != r[b].msg_id by {
            assert(r[a] == r0[a]);
            if b < r0.len() {
                assert(r[b] == r0[b]);
            } else {
                assert(r[b] == e);
            }
        }
        assert(queue_upsert(q, e) == r);
    } else {
        let r = q.push(e);
        assert forall|a: int, b: int| 0 <= a < b < r.len() implies r[a].msg_id != r[b].msg_id by {
            assert(r[a] == q[a]);
            if b < q.len() {
                assert(r[b] == q[b]);
            } else {
                assert(r[b] == e);
                assert(!pending_key_at(q, a, e.msg_id));
            }
        }
    }
}



/// The log after a status update of message `id` to `st`: the entry takes
/// the new status where the update applies, every other entry stays.
pub open spec fn apply_status(log: Seq<MessageView>, id: Seq<u8>, st: MessageStatus) -> Seq<MessageView> {
    log.map_values(
        |m: MessageView|
            if m.id == id && status_update_applies(m.status, st) {
                MessageView { status: st, ..m }
            } else {
                m
            },
    )
}

/// A status update never moves a message back along
/// `Pending < Sent < Delivered < Read`: afterwards its rank is the larger of
/// its former rank and the rank of the update.
pub proof fn lemma_status_update_monotone(log: Seq<MessageView>, id: Seq<u8>, st: MessageStatus, i: int)
    requires
        0 <= i < log.len(),
        log[i].id == id,
        status_rank(log[i].status) is Some,
        status_rank(st) is Some,
    ensures
        status_rank(apply_status(log, id, st)[i].status) == Some(
            if status_rank(log[i].status).unwrap() >= status_rank(st).unwrap() {
                status_rank(log[i].status).unwrap()
            } else {
                status_rank(st).unwrap()
            },
        ),
{
}

/// Whether the log holds an entry with this id.
pub open spec fn logged(log: Seq<MessageView>, id: Seq<u8>) -> bool {
    exists|i: int| 0 <= i < log.len() && log[i].id == id
}

impl Store {
    /// Index of the log entry with this id.
    fn find_message(&self, id: &MessageId) -> (r: Option<usize>)
        ensures
            match r {
                Some(i) => i < self@.log.len() && self@.log[i as int].id == id@,
                None => !logged(self@.log, id@),
            },
    {
        let mut i: usize = 0;
        while i < self.log.len()
            invariant
                i <= self.log@.len(),
                self@.log.len() == self.log@.len(),
                forall|k: int| 0 <= k < i ==> self@.log[k].id != id@,
            decreases self.log@.len() - i,
        {
            if self.log[i].id.same(id) {
                return Some(i);
            }
            i = i + 1;
        }
        None
    }

    /// Adds a message to the log, after every entry that is not newer.
    /// Fails with `AlreadyExists` when its id is logged already.
    pub fn insert_message(&mut self, msg: Message) -> (r: Result<(), StoreError>)
        requires
            old(self).wf(),
        ensures
            final(self).wf(),
            r is Err <==> logged(old(self)@.log, msg@.id),
            r is Err ==> r == Err::<(), StoreError>(StoreError::AlreadyExists) && final(self)@ == old(self)@,
            r is Ok ==> exists|p: int|
                0 <= p <= old(self)@.log.len() && final(self)@.log == old(self)@.log.insert(p, msg@)
                    && (forall|k: int| 0 <= k < p ==> old(self)@.log[k].timestamp <= msg@.timestamp)
                    && (forall|k: int| p <= k < old(self)@.log.len() ==> old(self)@.log[k].timestamp > msg@.timestamp),
            final(self)@.contacts == old(self)@.contacts,
            final(self)@.groups == old(self)@.groups,
            final(self)@.pending == old(self)@.pending,
    {
        if self.find_message(&msg.id).is_some() {
            return Err(StoreError::AlreadyExists);
        }
        let ghost l = self@.log;
        let mut p: usize = self.log.len();
        while p > 0 && self.log[p - 1].timestamp > msg.timestamp
            invariant
                p <= self.log@.len(),
                l == self@.log,
                l.len() == self.log@.len(),
                forall|k: int| p <= k < l.len() ==> l[k].timestamp > msg@.timestamp,
            decreases p,
        {
            p = p - 1;
        }
        proof {
            if p > 0 {
                assert forall|k: int| 0 <= k < p implies l[k].timestamp <= msg@.timestamp by {
                    assert(l[k].timestamp <= l[p - 1].timestamp);
                }
            }
        }
        let ghost m = msg@;
        self.log.insert(p, msg);
        assert(self@.log =~= l.insert(p as int, m));
        assert forall|a: int, b: int| 0 <= a < b < self@.log.len() implies self@.log[a].id != self@.log[b].id by {
            let la = if a < p { a } else if a == p { -1 } else { a - 1 };
            let lb = if b < p { b } else if b == p { -1 } else { b - 1 };
            if a == p {
                assert(self@.log[a] == m);
                assert(self@.log[b] == l[lb]);
            } else if b == p {
                assert(self@.log[b] == m);
                assert(self@.log[a] == l[la]);
            } else {
                assert(self@.log[a] == l[la] && self@.log[b] == l[lb]);
            }
        }
        assert forall|a: int, b: int| 0 <= a <= b < self@.log.len() implies self@.log[a].timestamp <= self@.log[b].timestamp by {
            let la = if a < p { a } else if a == p { -1 } else { a - 1 };
            let lb = if b < p { b } else if b == p { -1 } else { b - 1 };
            if a == p {
                if b > p {
                    assert(self@.log[b] == l[lb]);
                }
            } else if b == p {
                assert(self@.log[a] == l[la]);
            } else {
                assert(self@.log[a] == l[la] && self@.log[b] == l[lb]);
            }
        }
        assert(self@.contacts =~= old(self)@.contacts);
        assert(self@.groups =~= old(self)@.groups);
        assert(self@.pending =~= old(self)@.pending);
        Ok(())
    }

    /// The logged message with this id, if any.
    pub fn get_message(&self, id: &MessageId) -> (r: Option<Message>)
        ensures
            r is Some <==> logged(self@.log, id@),
            r is Some ==> exists|i: int| 0 <= i < self@.log.len() && self@.log[i] == r.unwrap()@ && r.unwrap()@.id == id@,
    {
        match self.find_message(id) {
            Some(i) => Some(self.log[i].copy()),
            None => None,
        }
    }

    /// Applies a status update to the logged message with this id, unless it
    /// would move the status backwards (see `status_update_applies`). True
    /// when the status changed.
    pub fn update_message_status(&mut self, id: &MessageId, status: MessageStatus) -> (r: bool)
        requires
            old(self).wf(),
        ensures
            final(self).wf(),
            r == exists|i: int|
                0 <= i < old(self)@.log.len() && old(self)@.log[i].id == id@
                    && status_update_applies(old(self)@.log[i].status, status),
            !r ==> final(self)@ == old(self)@,
            final(self)@.log == apply_status(old(self)@.log, id@, status),
            r ==> exists|i: int|
                0 <= i < old(self)@.log.len() && old(self)@.log[i].id == id@ && final(self)@.log
                    == old(self)@.log.update(i, MessageView { status: status, ..old(self)@.log[i] }),
            final(self)@.contacts == old(self)@.contacts,
            final(self)@.groups == old(self)@.groups,
            final(self)@.pending == old(self)@.pending,
    {
        match self.find_message(id) {
            Some(i) => {
                if !update_applies(&self.log[i].status, &status) {
                    proof {
                        assert forall|j: int| 0 <= j < old(self)@.log.len() && old(self)@.log[j].id == id@
                            implies !status_update_applies(old(self)@.log[j].status, status) by {
                            if j != i {
                                assert(log_ids_unique(old(self)@.log));
                            }
                        }
                        assert(apply_status(old(self)@.log, id@, status) =~= old(self)@.log);
                    }
                    return false;
                }
                let mut m = self.log[i].copy();
                m.status = status;
                let ghost l = self@.log;
                self.log.set(i, m);
                assert(self@.log =~= l.update(i as int, MessageView { status: status, ..l[i as int] }));
                assert(self@.log =~= apply_status(l, id@, status)) by {
                    assert(log_ids_unique(l));
                }
                assert(self@.contacts =~= old(self)@.contacts);
                assert(self@.groups =~= old(self)@.groups);
                assert(self@.pending =~= old(self)@.pending);
                assert forall|a: int, b: int| 0 <= a < b < self@.log.len() implies self@.log[a].id != self@.log[b].id by {
                    assert(l[a].id == self@.log[a].id && l[b].id == self@.log[b].id);
                }
                assert forall|a: int, b: int| 0 <= a <= b < self@.log.len() implies self@.log[a].timestamp <= self@.log[b].timestamp by {
                    assert(l[a].timestamp == self@.log[a].timestamp && l[b].timestamp == self@.log[b].timestamp);
                }
                true
            },
            None => {
                assert(apply_status(old(self)@.log, id@, status) =~= old(self)@.log);
                false
            },
        }
    }

    /// Up to `limit` logged messages that involve `peer`, newest first.
    pub fn get_messages_with_peer(&self, peer_id: &NodeId, limit: usize) -> (r: Vec<Message>)
        ensures
            r@.map_values(|m: Message| m@) == newest_first_with(self@.log, peer_id@).take(
                if limit <= newest_first_with(self@.log, peer_id@).len() { limit as int } else {
                    newest_first_with(self@.log, peer_id@).len() as int
                },
            ),
    {
        let ghost l = self@.log;
        let ghost all = newest_first_with(l, peer_id@);
        let mut out: Vec<Message> = Vec::new();
        let mut i: usize = self.log.len();
        assert(l.subrange(0, l.len() as int) =~= l);
        while i > 0 && out.len() < limit
            invariant
                i <= self.log@.len(),
                l == self@.log,
                l.len() == self.log@.len(),
                out@.len() <= limit,
                out@.map_values(|m: Message| m@) + newest_first_with(l.subrange(0, i as int), peer_id@) == all,
            decreases i,
        {
            proof {
                lemma_newest_first_step(l, i as int, peer_id@);
            }
            let ghost o0 = out@.map_values(|m: Message| m@);
            if message_involves(&self.log[i - 1], peer_id) {
                out.push(self.log[i - 1].copy());
                assert(out@.map_values(|m: Message| m@) =~= o0.push(l[i - 1]));
                assert(o0.push(l[i - 1]) + newest_first_with(l.subrange(0, i - 1), peer_id@) =~= o0 + (
                seq![l[i - 1]] + newest_first_with(l.subrange(0, i - 1), peer_id@)));
            }
            i = i - 1;
        }
        let ghost o = out@.map_values(|m: Message| m@);
        assert(o =~= all.take(o.len() as int));
        proof {
            if out@.len() < limit {
                assert(i == 0);
                assert(newest_first_with(l.subrange(0, 0), peer_id@) =~= Seq::<MessageView>::empty());
                assert(o =~= all);
            }
        }
        out
    }
}


impl Store {
    /// Index of the contact with this node id.
    fn find_contact(&self, peer_id: &NodeId) -> (r: Option<usize>)
        ensures
            match r {
                Some(i) => contact_at(self@.contacts, i as int, peer_id@),
                None => !has_contact(self@.contacts, peer_id@),
            },
    {
        let mut i: usize = 0;
        while i < self.contacts.len()
            invariant
                i <= self.contacts@.len(),
                self@.contacts.len() == self.contacts@.len(),
                forall|k: int| 0 <= k < i ==> !contact_at(self@.contacts, k, peer_id@),
            decreases self.contacts@.len() - i,
        {
            if self.contacts[i].peer_id.same(peer_id) {
                return Some(i);
            }
            i = i + 1;
        }
        None
    }

    /// Index of the contact with this alias.
    fn find_alias(&self, alias: &str) -> (r: Option<usize>)
        ensures
            match r {
                Some(i) => i < self@.contacts.len() && self@.contacts[i as int].alias == alias@,
                None => forall|k: int| 0 <= k < self@.contacts.len() ==> self@.contacts[k].alias != alias@,
            },
    {
        let mut i: usize = 0;
        while i < self.contacts.len()
            invariant
                i <= self.contacts@.len(),
                self@.contacts.len() == self.contacts@.len(),
                forall|k: int| 0 <= k < i ==> self@.contacts[k].alias != alias@,
            decreases self.contacts@.len() - i,
        {
            if str_equal(self.contacts[i].alias.as_str(), alias) {
                return Some(i);
            }
            i = i + 1;
        }
        None
    }

    /// Whether another node than the contact's goes by its alias.
    fn alias_conflict(&self, contact: &Contact) -> (r: bool)
        ensures
            r == alias_taken(self@.contacts, contact@.alias, contact@.peer_id),
    {
        let mut i: usize = 0;
        while i < self.contacts.len()
            invariant
                i <= self.contacts@.len(),
                self@.contacts.len() == self.contacts@.len(),
                forall|k: int| 0 <= k < i ==> !(self@.contacts[k].alias == contact@.alias && self@.contacts[k].peer_id != contact@.peer_id),
            decreases self.contacts@.len() - i,
        {
            if str_equal(self.contacts[i].alias.as_str(), contact.alias.as_str()) && !self.contacts[i].peer_id.same(&contact.peer_id) {
                assert(self@.contacts[i as int].alias == contact@.alias);
                return true;
            }
            i = i + 1;
        }
        false
    }

    /// Removes the contact with this node id, if any.
    fn remove_contact_entry(&mut self, peer_id: &NodeId) -> (r: bool)
        requires
            contacts_wf(old(self)@.contacts),
        ensures
            contacts_wf(final(self)@.contacts),
            r == has_contact(old(self)@.contacts, peer_id@),
            final(self)@.contacts == contacts_removed(old(self)@.contacts, peer_id@),
            forall|k: int| 0 <= k < final(self)@.contacts.len() ==> final(self)@.contacts[k].peer_id != peer_id@,
            forall|k: int| 0 <= k < final(self)@.contacts.len() ==> alias_taken(old(self)@.contacts, #[trigger] final(self)@.contacts[k].alias, peer_id@),
            final(self)@.groups == old(self)@.groups,
            final(self)@.log == old(self)@.log,
            final(self)@.pending == old(self)@.pending,
    {
        let ghost cs = self@.contacts;
        match self.find_contact(peer_id) {
            Some(j) => {
                proof {
                    assert(contact_at(cs, j as int, peer_id@));
                    let jj = choose|jj: int| contact_at(cs, jj, peer_id@);
                    assert(jj == j as int);
                }
                self.contacts.remove(j);
                let ghost xs = self@.contacts;
                assert(xs =~= cs.remove(j as int));
                assert forall|k: int| 0 <= k < xs.len() implies #[trigger] xs[k].peer_id != peer_id@ && alias_taken(cs, xs[k].alias, peer_id@) by {
                    let m = if k < j { k } else { k + 1 };
                    assert(xs[k] == cs[m]);
                    if m < j {
                        assert(cs[m].peer_id != cs[j as int].peer_id);
                    } else {
                        assert(cs[j as int].peer_id != cs[m].peer_id);
                    }
                }
                assert forall|a: int, b: int| 0 <= a < b < xs.len() implies lex_lt(alias_key(xs[a]), alias_key(xs[b])) && xs[a].peer_id != xs[b].peer_id by {
                    let ma = if a < j { a } else { a + 1 };
                    let mb = if b < j { b } else { b + 1 };
                    assert(xs[a] == cs[ma] && xs[b] == cs[mb]);
                }
                assert(self@.groups =~= old(self)@.groups);
                assert(self@.log =~= old(self)@.log);
                assert(self@.pending =~= old(self)@.pending);
                true
            },
            None => {
                assert forall|k: int| 0 <= k < cs.len() implies #[trigger] cs[k].peer_id != peer_id@ && alias_taken(cs, cs[k].alias, peer_id@) by {
                    assert(!contact_at(cs, k, peer_id@));
                }
                false
            },
        }
    }

    /// Inserts a contact at its place in alias order.
    fn insert_contact_sorted(&mut self, contact: Contact)
        requires
            contacts_wf(old(self)@.contacts),
            forall|k: int| 0 <= k < old(self)@.contacts.len() ==> old(self)@.contacts[k].peer_id != contact@.peer_id && old(self)@.contacts[k].alias != contact@.alias,
        ensures
            contacts_wf(final(self)@.contacts),
            exists|p: int| 0 <= p <= old(self)@.contacts.len() && final(self)@.contacts == old(self)@.contacts.insert(p, contact@),
            final(self)@.groups == old(self)@.groups,
            final(self)@.log == old(self)@.log,
            final(self)@.pending == old(self)@.pending,
    {
        let ghost xs = self@.contacts;
        let ghost c = contact@;
        let key = contact.alias.as_str().as_bytes();
        let mut p: usize = 0;
        while p < self.contacts.len() && !bytes_lt(key, self.contacts[p].alias.as_str().as_bytes())
            invariant
                p <= self.contacts@.len(),
                xs == self@.contacts,
                xs.len() == self.contacts@.len(),
                key@ == alias_key(c),
                forall|k: int| 0 <= k < p ==> !lex_lt(alias_key(c), alias_key(xs[k])),
            decreases self.contacts@.len() - p,
        {
            p = p + 1;
        }
        self.contacts.insert(p, contact);
        let ghost ys = self@.contacts;
        assert(ys =~= xs.insert(p as int, c));
        assert forall|k: int| 0 <= k < p implies lex_lt(alias_key(xs[k]), alias_key(c)) by {
            if alias_key(xs[k]) == alias_key(c) {
                lemma_alias_key_injective(xs[k], c);
            }
            lemma_lex_total(alias_key(xs[k]), alias_key(c));
        }
        assert forall|k: int| p <= k < xs.len() implies lex_lt(alias_key(c), alias_key(xs[k])) by {
            if k > p {
                lemma_lex_transitive(alias_key(c), alias_key(xs[p as int]), alias_key(xs[k]));
            }
        }
        assert forall|a: int, b: int| 0 <= a < b < ys.len() implies lex_lt(alias_key(ys[a]), alias_key(ys[b])) && ys[a].peer_id != ys[b].peer_id by {
            if a < p && b < p {
                assert(ys[a] == xs[a] && ys[b] == xs[b]);
            } else if a < p && b == p {
                assert(ys[a] == xs[a] && ys[b] == c);
            } else if a < p {
                assert(ys[a] == xs[a] && ys[b] == xs[b - 1]);
            } else if a == p {
                assert(ys[a] == c && ys[b] == xs[b - 1]);
            } else {
                assert(ys[a] == xs[a - 1] && ys[b] == xs[b - 1]);
            }
        }
        assert(self@.groups =~= old(self)@.groups);
        assert(self@.log =~= old(self)@.log);
        assert(self@.pending =~= old(self)@.pending);
    }

    /// Inserts or replaces the contact with this node id, keeping contacts
    /// ordered by alias. Fails with `AlreadyExists` when another node goes by
    /// the same alias.
    pub fn upsert_contact(&mut self, contact: Contact) -> (r: Result<(), StoreError>)
        requires
            old(self).wf(),
        ensures
            final(self).wf(),
            r is Err <==> alias_taken(old(self)@.contacts, contact@.alias, contact@.peer_id),
            r is Err ==> r == Err::<(), StoreError>(StoreError::AlreadyExists) && final(self)@ == old(self)@,
            r is Ok ==> exists|p: int|
                0 <= p <= contacts_removed(old(self)@.contacts, contact@.peer_id).len()
                    && final(self)@.contacts == contacts_removed(old(self)@.contacts, contact@.peer_id).insert(p, contact@),
            final(self)@.groups == old(self)@.groups,
            final(self)@.log == old(self)@.log,
            final(self)@.pending == old(self)@.pending,
    {
        if self.alias_conflict(&contact) {
            return Err(StoreError::AlreadyExists);
        }
        let ghost cs = self@.contacts;
        self.remove_contact_entry(&contact.peer_id);
        assert forall|k: int| 0 <= k < self@.contacts.len() implies self@.contacts[k].alias != contact@.alias by {
            assert(alias_taken(cs, self@.contacts[k].alias, contact@.peer_id));
        }
        self.insert_contact_sorted(contact);
        Ok(())
    }

    /// The contact with this node id, if any.
    pub fn get_contact(&self, peer_id: &NodeId) -> (r: Option<Contact>)
        ensures
            r is Some <==> has_contact(self@.contacts, peer_id@),
            r is Some ==> exists|i: int| contact_at(self@.contacts, i, peer_id@) && self@.contacts[i] == r.unwrap()@,
    {
        match self.find_contact(peer_id) {
            Some(i) => Some(self.contacts[i].copy()),
            None => None,
        }
    }

    /// The contact with this alias, if any.
    pub fn get_contact_by_alias(&self, alias: &str) -> (r: Option<Contact>)
        ensures
            r is Some <==> exists|i: int| 0 <= i < self@.contacts.len() && self@.contacts[i].alias == alias@,
            r is Some ==> exists|i: int| 0 <= i < self@.contacts.len() && self@.contacts[i].alias == alias@ && self@.contacts[i] == r.unwrap()@,
    {
        match self.find_alias(alias) {
            Some(i) => Some(self.contacts[i].copy()),
            None => None,
        }
    }

    /// Every contact, ordered by alias.
    pub fn list_contacts(&self) -> (r: Vec<Contact>)
        ensures
            r@.map_values(|c: Contact| c@) == self@.contacts,
    {
        let mut out: Vec<Contact> = Vec::new();
        let mut i: usize = 0;
        while i < self.contacts.len()
            invariant
                i <= self.contacts@.len(),
                self@.contacts.len() == self.contacts@.len(),
                out@.len() == i,
                forall|k: int| 0 <= k < i ==> out@[k]@ == self@.contacts[k],
            decreases self.contacts@.len() - i,
        {
            out.push(self.contacts[i].copy());
            i = i + 1;
        }
        assert(out@.map_values(|c: Contact| c@) =~= self@.contacts);
        out
    }

    /// Deletes the contact with this node id; false if there was none.
    pub fn delete_contact(&mut self, peer_id: &NodeId) -> (r: bool)
        requires
            old(self).wf(),
        ensures
            final(self).wf(),
            r == has_contact(old(self)@.contacts, peer_id@),
            final(self)@.contacts == contacts_removed(old(self)@.contacts, peer_id@),
            final(self)@.groups == old(self)@.groups,
            final(self)@.log == old(self)@.log,
            final(self)@.pending == old(self)@.pending,
    {
        self.remove_contact_entry(peer_id)
    }
}


/// Whether group `i` has id `id`.
pub open spec fn group_at(gs: Seq<GroupView>, i: int, id: Seq<u8>) -> bool {
    0 <= i < gs.len() && gs[i].id == id
}

/// Whether some group has id `id`.
pub open spec fn has_group(gs: Seq<GroupView>, id: Seq<u8>) -> bool {
    exists|i: int| group_at(gs, i, id)
}

/// Whether some group is named `name`.
pub open spec fn has_group_named(gs: Seq<GroupView>, name: Seq<char>) -> bool {
    exists|i: int| 0 <= i < gs.len() && gs[i].name == name
}

impl Store {
    fn find_group(&self, id: &MessageId) -> (r: Option<usize>)
        ensures
            match r {
                Some(i) => group_at(self@.groups, i as int, id@),
                None => !has_group(self@.groups, id@),
            },
    {
        let mut i: usize = 0;
        while i < self.groups.len()
            invariant
                i <= self.groups@.len(),
                self@.groups.len() == self.groups@.len(),
                forall|k: int| 0 <= k < i ==> !group_at(self@.groups, k, id@),
            decreases self.groups@.len() - i,
        {
            if self.groups[i].id.same(id) {
                return Some(i);
            }
            i = i + 1;
        }
        None
    }

    fn find_group_named(&self, name: &str) -> (r: Option<usize>)
        ensures
            match r {
                Some(i) => i < self@.groups.len() && self@.groups[i as int].name == name@,
                None => !has_group_named(self@.groups, name@),
            },
    {
        let mut i: usize = 0;
        while i < self.groups.len()
            invariant
                i <= self.groups@.len(),
                self@.groups.len() == self.groups@.len(),
                forall|k: int| 0 <= k < i ==> self@.groups[k].name != name@,
            decreases self.groups@.len() - i,
        {
            if str_equal(self.groups[i].name.as_str(), name) {
                return Some(i);
            }
            i = i + 1;
        }
        None
    }

    /// Adds a group. Fails with `AlreadyExists` when its id or its name is
    /// taken.
    pub fn create_group(&mut self, group: Group) -> (r: Result<(), StoreError>)
        requires
            old(self).wf(),
        ensures
            final(self).wf(),
            r is Err <==> has_group(old(self)@.groups, group@.id) || has_group_named(old(self)@.groups, group@.name),
            r is Err ==> r == Err::<(), StoreError>(StoreError::AlreadyExists) && final(self)@ == old(self)@,
            r is Ok ==> final(self)@.groups == old(self)@.groups.push(group@),
            final(self)@.contacts == old(self)@.contacts,
            final(self)@.log == old(self)@.log,
            final(self)@.pending == old(self)@.pending,
    {
        if self.find_group(&group.id).is_some() || self.find_group_named(group.name.as_str()).is_some() {
            return Err(StoreError::AlreadyExists);
        }
        let ghost gs = self@.groups;
        let ghost g = group@;
        self.groups.push(group);
        assert(self@.groups =~= gs.push(g));
        assert forall|a: int, b: int| 0 <= a < b < self@.groups.len() implies self@.groups[a].id != self@.groups[b].id && self@.groups[a].name != self@.groups[b].name by {
            if b == gs.len() {
                assert(!group_at(gs, a, g.id));
            }
        }
        assert(self@.contacts =~= old(self)@.contacts);
        assert(self@.log =~= old(self)@.log);
        assert(self@.pending =~= old(self)@.pending);
        Ok(())
    }

    /// The group with this id, if any.
    pub fn get_group(&self, id: &MessageId) -> (r: Option<Group>)
        ensures
            r is Some <==> has_group(self@.groups, id@),
            r is Some ==> exists|i: int| group_at(self@.groups, i, id@) && self@.groups[i] == r.unwrap()@,
    {
        match self.find_group(id) {
            Some(i) => Some(self.groups[i].copy()),
            None => None,
        }
    }

    /// The group with this name, if any.
    pub fn get_group_by_name(&self, name: &str) -> (r: Option<Group>)
        ensures
            r is Some <==> has_group_named(self@.groups, name@),
            r is Some ==> exists|i: int| 0 <= i < self@.groups.len() && self@.groups[i].name == name@ && self@.groups[i] == r.unwrap()@,
    {
        match self.find_group_named(name) {
            Some(i) => Some(self.groups[i].copy()),
            None => None,
        }
    }

    /// Every group, in order of creation.
    pub fn list_groups(&self) -> (r: Vec<Group>)
        ensures
            r@.map_values(|g: Group| g@) == self@.groups,
    {
        let mut out: Vec<Group> = Vec::new();
        let mut i: usize = 0;
        while i < self.groups.len()
            invariant
                i <= self.groups@.len(),
                self@.groups.len() == self.groups@.len(),
                out@.len() == i,
                forall|k: int| 0 <= k < i ==> out@[k]@ == self@.groups[k],
            decreases self.groups@.len() - i,
        {
            out.push(self.groups[i].copy());
            i = i + 1;
        }
        assert(out@.map_values(|g: Group| g@) =~= self@.groups);
        out
    }

    /// Deletes the group with this id; false if there was none.
    pub fn delete_group(&mut self, id: &MessageId) -> (r: bool)
        requires
            old(self).wf(),
        ensures
            final(self).wf(),
            r == has_group(old(self)@.groups, id@),
            r ==> exists|i: int| group_at(old(self)@.groups, i, id@) && final(self)@.groups == old(self)@.groups.remove(i),
            !r ==> final(self)@ == old(self)@,
            final(self)@.contacts == old(self)@.contacts,
            final(self)@.log == old(self)@.log,
            final(self)@.pending == old(self)@.pending,
    {
        match self.find_group(id) {
            Some(i) => {
                let ghost gs = self@.groups;
                self.groups.remove(i);
                assert(self@.groups =~= gs.remove(i as int));
                assert forall|a: int, b: int| 0 <= a < b < self@.groups.len() implies self@.groups[a].id != self@.groups[b].id && self@.groups[a].name != self@.groups[b].name by {
                    let ma = if a < i { a } else { a + 1 };
                    let mb = if b < i { b } else { b + 1 };
                    assert(self@.groups[a] == gs[ma] && self@.groups[b] == gs[mb]);
                }
                assert(self@.contacts =~= old(self)@.contacts);
                assert(self@.log =~= old(self)@.log);
                assert(self@.pending =~= old(self)@.pending);
                true
            },
            None => false,
        }
    }

    /// Replaces group `i` by `g`, which keeps its id and name.
    fn replace_group(&mut self, i: usize, g: Group)
        requires
            old(self).wf(),
            i < old(self)@.groups.len(),
            g@.id == old(self)@.groups[i as int].id,
            g@.name == old(self)@.groups[i as int].name,
        ensures
            final(self).wf(),
            final(self)@.groups == old(self)@.groups.update(i as int, g@),
            final(self)@.contacts == old(self)@.contacts,
            final(self)@.log == old(self)@.log,
            final(self)@.pending == old(self)@.pending,
    {
        let ghost gs = self@.groups;
        let ghost gv = g@;
        self.groups.set(i, g);
        assert(self@.groups =~= gs.update(i as int, gv));
        assert forall|a: int, b: int| 0 <= a < b < self@.groups.len() implies self@.groups[a].id != self@.groups[b].id && self@.groups[a].name != self@.groups[b].name by {
            assert(self@.groups[a].id == gs[a].id && self@.groups[a].name == gs[a].name);
            assert(self@.groups[b].id == gs[b].id && self@.groups[b].name == gs[b].name);
        }
        assert(self@.contacts =~= old(self)@.contacts);
        assert(self@.log =~= old(self)@.log);
        assert(self@.pending =~= old(self)@.pending);
    }

    /// Adds a member to the group with this id (no effect if it is one).
    /// Fails with `NotFound` when there is no such group.
    pub fn add_group_member(&mut self, group_id: &MessageId, peer_id: &NodeId) -> (r: Result<(), StoreError>)
        requires
            old(self).wf(),
        ensures
            final(self).wf(),
            r is Err <==> !has_group(old(self)@.groups, group_id@),
            r is Err ==> r == Err::<(), StoreError>(StoreError::NotFound) && final(self)@ == old(self)@,
            r is Ok ==> exists|i: int| group_at(old(self)@.groups, i, group_id@) && final(self)@.groups == old(self)@.groups.update(i,
                if has_member(old(self)@.groups[i].members, peer_id@) {
                    old(self)@.groups[i]
                } else {
                    GroupView { members: old(self)@.groups[i].members.push(peer_id@), ..old(self)@.groups[i] }
                }),
            final(self)@.contacts == old(self)@.contacts,
            final(self)@.log == old(self)@.log,
            final(self)@.pending == old(self)@.pending,
    {
        match self.find_group(group_id) {
            Some(i) => {
                let mut g = self.groups[i].copy();
                g.add_member(peer_id.copy());
                self.replace_group(i, g);
                Ok(())
            },
            None => Err(StoreError::NotFound),
        }
    }

    /// Removes a member from the group with this id; false when there is no
    /// such group or member.
    pub fn remove_group_member(&mut self, group_id: &MessageId, peer_id: &NodeId) -> (r: bool)
        requires
            old(self).wf(),
        ensures
            final(self).wf(),
            r == exists|i: int| group_at(old(self)@.groups, i, group_id@) && has_member(old(self)@.groups[i].members, peer_id@),
            !r ==> final(self)@ == old(self)@,
            r ==> exists|i: int, j: int| group_at(old(self)@.groups, i, group_id@)
                && 0 <= j < old(self)@.groups[i].members.len() && old(self)@.groups[i].members[j] == peer_id@
                && final(self)@.groups == old(self)@.groups.update(i,
                    GroupView { members: old(self)@.groups[i].members.remove(j), ..old(self)@.groups[i] }),
            final(self)@.contacts == old(self)@.contacts,
            final(self)@.log == old(self)@.log,
            final(self)@.pending == old(self)@.pending,
    {
        match self.find_group(group_id) {
            Some(i) => {
                let mut g = self.groups[i].copy();
                if g.remove_member(peer_id) {
                    self.replace_group(i, g);
                    true
                } else {
                    proof {
                        assert forall|k: int| group_at(old(self)@.groups, k, group_id@) implies !has_member(old(self)@.groups[k].members, peer_id@) by {
                            if k != i as int {
                                assert(groups_wf(old(self)@.groups));
                            }
                        }
                    }
                    false
                }
            },
            None => false,
        }
    }

    /// Sets the symmetric key of the group with this id; false when there is
    /// no such group.
    pub fn set_group_key(&mut self, group_id: &MessageId, key: &Vec<u8>) -> (r: bool)
        requires
            old(self).wf(),
        ensures
            final(self).wf(),
            r == has_group(old(self)@.groups, group_id@),
            !r ==> final(self)@ == old(self)@,
            r ==> exists|i: int| group_at(old(self)@.groups, i, group_id@) && final(self)@.groups == old(self)@.groups.update(i,
                GroupView { symmetric_key: key@, ..old(self)@.groups[i] }),
            final(self)@.contacts == old(self)@.contacts,
            final(self)@.log == old(self)@.log,
            final(self)@.pending == old(self)@.pending,
    {
        match self.find_group(group_id) {
            Some(i) => {
                let mut g = self.groups[i].copy();
                g.symmetric_key = copy_bytes(key);
                self.replace_group(i, g);
                true
            },
            None => false,
        }
    }
}


impl Store {
    /// Replaces contact `i` by `c`, which keeps its node id and alias.
    fn replace_contact(&mut self, i: usize, c: Contact)
        requires
            old(self).wf(),
            i < old(self)@.contacts.len(),
            c@.peer_id == old(self)@.contacts[i as int].peer_id,
            c@.alias == old(self)@.contacts[i as int].alias,
        ensures
            final(self).wf(),
            final(self)@.contacts == old(self)@.contacts.update(i as int, c@),
            final(self)@.groups == old(self)@.groups,
            final(self)@.log == old(self)@.log,
            final(self)@.pending == old(self)@.pending,
    {
        let ghost cs = self@.contacts;
        let ghost cv = c@;
        self.contacts.set(i, c);
        assert(self@.contacts =~= cs.update(i as int, cv));
        assert forall|a: int, b: int| 0 <= a < b < self@.contacts.len() implies lex_lt(alias_key(self@.contacts[a]), alias_key(self@.contacts[b])) && self@.contacts[a].peer_id != self@.contacts[b].peer_id by {
            assert(self@.contacts[a].alias == cs[a].alias && self@.contacts[a].peer_id == cs[a].peer_id);
            assert(self@.contacts[b].alias == cs[b].alias && self@.contacts[b].peer_id == cs[b].peer_id);
            assert(alias_key(self@.contacts[a]) == alias_key(cs[a]));
            assert(alias_key(self@.contacts[b]) == alias_key(cs[b]));
            assert(lex_lt(alias_key(cs[a]), alias_key(cs[b])));
        }
        assert(self@.groups =~= old(self)@.groups);
        assert(self@.log =~= old(self)@.log);
        assert(self@.pending =~= old(self)@.pending);
    }

    /// Sets the trust level of the contact with this node id; false when
    /// there is none.
    pub fn set_trust_level(&mut self, peer_id: &NodeId, level: crate::types::TrustLevel) -> (r: bool)
        requires
            old(self).wf(),
        ensures
            final(self).wf(),
            r == has_contact(old(self)@.contacts, peer_id@),
            !r ==> final(self)@ == old(self)@,
            r ==> exists|i: int| contact_at(old(self)@.contacts, i, peer_id@) && final(self)@.contacts
                == old(self)@.contacts.update(i, ContactView { trust_level: level, ..old(self)@.contacts[i] }),
            final(self)@.groups == old(self)@.groups,
            final(self)@.log == old(self)@.log,
            final(self)@.pending == old(self)@.pending,
    {
        match self.find_contact(peer_id) {
            Some(i) => {
                let mut c = self.contacts[i].copy();
                c.trust_level = level;
                self.replace_contact(i, c);
                true
            },
            None => false,
        }
    }

    /// Records when the contact with this node id was last connected; false
    /// when there is none.
    pub fn update_last_seen(&mut self, peer_id: &NodeId, at: i64) -> (r: bool)
        requires
            old(self).wf(),
        ensures
            final(self).wf(),
            r == has_contact(old(self)@.contacts, peer_id@),
            !r ==> final(self)@ == old(self)@,
            r ==> exists|i: int| contact_at(old(self)@.contacts, i, peer_id@) && final(self)@.contacts
                == old(self)@.contacts.update(i, ContactView { last_seen: Some(at), ..old(self)@.contacts[i] }),
            final(self)@.groups == old(self)@.groups,
            final(self)@.log == old(self)@.log,
            final(self)@.pending == old(self)@.pending,
    {
        match self.find_contact(peer_id) {
            Some(i) => {
                let mut c = self.contacts[i].copy();
                c.last_seen = Some(at);
                self.replace_contact(i, c);
                true
            },
            None => false,
        }
    }

    /// Whether the contact with this node id is blocked.
    pub fn is_blocked(&self, peer_id: &NodeId) -> (r: bool)
        requires
            self.wf(),
        ensures
            r == exists|i: int| contact_at(self@.contacts, i, peer_id@) && self@.contacts[i].trust_level == crate::types::TrustLevel::Blocked,
    {
        match self.find_contact(peer_id) {
            Some(i) => {
                proof {
                    assert forall|k: int| contact_at(self@.contacts, k, peer_id@) implies k == i as int by {
                        if k < i as int {
                            assert(self@.contacts[k].peer_id != self@.contacts[i as int].peer_id);
                        } else if k > i as int {
                            assert(self@.contacts[i as int].peer_id != self@.contacts[k].peer_id);
                        }
                    }
                }
                match self.contacts[i].trust_level {
                    crate::types::TrustLevel::Blocked => true,
                    _ => false,
                }
            },
            None => false,
        }
    }
}


impl Store {
    /// Every logged message, oldest first.
    pub fn messages(&self) -> (r: Vec<Message>)
        ensures
            r@.map_values(|m: Message| m@) == self@.log,
    {
        let mut out: Vec<Message> = Vec::new();
        let mut i: usize = 0;
        while i < self.log.len()
            invariant
                i <= self.log@.len(),
                self@.log.len() == self.log@.len(),
                out@.len() == i,
                forall|k: int| 0 <= k < i ==> out@[k]@ == self@.log[k],
            decreases self.log@.len() - i,
        {
            out.push(self.log[i].copy());
            i = i + 1;
        }
        assert(out@.map_values(|m: Message| m@) =~= self@.log);
        out
    }

    /// Every pending entry, in queue order.
    pub fn pending_entries(&self) -> (r: Vec<PendingOutbound>)
        ensures
            r@.map_values(|p: PendingOutbound| p@) == self@.pending,
    {
        let mut out: Vec<PendingOutbound> = Vec::new();
        let mut i: usize = 0;
        while i < self.pending.len()
            invariant
                i <= self.pending@.len(),
                self@.pending.len() == self.pending@.len(),
                out@.len() == i,
                forall|k: int| 0 <= k < i ==> out@[k]@ == self@.pending[k],
            decreases self.pending@.len() - i,
        {
            out.push(self.pending[i].copy());
            i = i + 1;
        }
        assert(out@.map_values(|p: PendingOutbound| p@) =~= self@.pending);
        out
    }

    /// Puts back a pending entry as it was saved, with its time and
    /// attempts; like a queueing, it replaces the entry with the same message
    /// id and goes to the back.
    pub fn restore_pending(&mut self, entry: PendingOutbound)
        requires
            old(self).wf(),
        ensures
            final(self).wf(),
            final(self)@.pending == queue_upsert(old(self)@.pending, entry@),
            final(self)@.contacts == old(self)@.contacts,
            final(self)@.groups == old(self)@.groups,
            final(self)@.log == old(self)@.log,
    {
        let ghost q = self@.pending;
        let ghost e = entry@;
        match self.find_pending(&entry.msg_id) {
            Some(i) => {
                proof {
                    assert(pending_key_at(q, i as int, e.msg_id));
                    let j = choose|j: int| pending_key_at(q, j, e.msg_id);
                    assert(j == i as int);
                }
                self.pending.remove(i);
                self.pending.push(entry);
                assert(self@.pending =~= q.remove(i as int).push(e));
            },
            None => {
                self.pending.push(entry);
                assert(self@.pending =~= q.push(e));
            },
        }
        proof {
            lemma_upsert_keeps_unique(q, e);
        }
        assert(self@.contacts =~= old(self)@.contacts);
        assert(self@.groups =~= old(self)@.groups);
        assert(self@.log =~= old(self)@.log);
    }
}

} // verus!
