//! Message history exchange between peers: selecting, comparing and merging
//! message lists.

use vstd::prelude::*;
use crate::types::{status_priority, status_rank, status_needs_sync, Message, MessageId, MessageStatus, MessageView};

verus! {

/// Position at which a message stamped `t` goes into a list: after every
/// entry that is not newer, counting from the back.
pub open spec fn time_pos(s: Seq<MessageView>, t: i64) -> int
    decreases s.len(),
{
    if s.len() == 0 {
        0
    } else if s.last().timestamp > t {
        time_pos(s.drop_last(), t)
    } else {
        s.len() as int
    }
}

/// Stable insertion of `m` by timestamp.
pub open spec fn insert_by_time(s: Seq<MessageView>, m: MessageView) -> Seq<MessageView> {
    s.insert(time_pos(s, m.timestamp), m)
}

/// Stable sort by timestamp, oldest first (equal stamps keep their order).
pub open spec fn sort_by_time(s: Seq<MessageView>) -> Seq<MessageView>
    decreases s.len(),
{
    if s.len() == 0 {
        Seq::empty()
    } else {
        insert_by_time(sort_by_time(s.drop_last()), s.last())
    }
}

/// Whether a list is ordered by timestamp, oldest first.
pub open spec fn time_sorted(s: Seq<MessageView>) -> bool {
    forall|i: int, j: int| 0 <= i <= j < s.len() ==> s[i].timestamp <= s[j].timestamp
}

/// The messages stamped after `since`, in order.
pub open spec fn newer_than(s: Seq<MessageView>, since: i64) -> Seq<MessageView>
    decreases s.len(),
{
    if s.len() == 0 {
        Seq::empty()
    } else if s.last().timestamp > since {
        newer_than(s.drop_last(), since).push(s.last())
    } else {
        newer_than(s.drop_last(), since)
    }
}

/// The messages whose id is not among `ids`, in order.
pub open spec fn missing_from(s: Seq<MessageView>, ids: Seq<Seq<u8>>) -> Seq<MessageView>
    decreases s.len(),
{
    if s.len() == 0 {
        Seq::empty()
    } else if ids.contains(s.last().id) {
        missing_from(s.drop_last(), ids)
    } else {
        missing_from(s.drop_last(), ids).push(s.last())
    }
}

proof fn lemma_time_pos_bounds(s: Seq<MessageView>, t: i64)
    ensures
        0 <= time_pos(s, t) <= s.len(),
        forall|k: int| time_pos(s, t) <= k < s.len() ==> s[k].timestamp > t,
    decreases s.len(),
{
    if s.len() > 0 && s.last().timestamp > t {
        lemma_time_pos_bounds(s.drop_last(), t);
        assert forall|k: int| time_pos(s, t) <= k < s.len() implies s[k].timestamp > t by {
            if k < s.len() - 1 {
                assert(s[k] == s.drop_last()[k]);
            }
        }
    }
}

proof fn lemma_time_pos_sorted(s: Seq<MessageView>, t: i64)
    requires
        time_sorted(s),
    ensures
        forall|k: int| 0 <= k < time_pos(s, t) ==> s[k].timestamp <= t,
    decreases s.len(),
{
    lemma_time_pos_bounds(s, t);
    if s.len() > 0 {
        if s.last().timestamp > t {
            assert(time_sorted(s.drop_last()));
            lemma_time_pos_sorted(s.drop_last(), t);
            lemma_time_pos_bounds(s.drop_last(), t);
            assert forall|k: int| 0 <= k < time_pos(s, t) implies s[k].timestamp <= t by {
                assert(s[k] == s.drop_last()[k]);
            }
        } else {
            assert forall|k: int| 0 <= k < time_pos(s, t) implies s[k].timestamp <= t by {
                assert(s[k].timestamp <= s[s.len() - 1].timestamp);
            }
        }
    }
}

/// A stable sort by timestamp yields a list ordered by timestamp.
pub proof fn lemma_sort_by_time_sorted(s: Seq<MessageView>)
    ensures
        time_sorted(sort_by_time(s)),
        sort_by_time(s).len() == s.len(),
    decreases s.len(),
{
    if s.len() > 0 {
        let x = sort_by_time(s.drop_last());
        lemma_sort_by_time_sorted(s.drop_last());
        let m = s.last();
        let p = time_pos(x, m.timestamp);
        lemma_time_pos_bounds(x, m.timestamp);
        lemma_time_pos_sorted(x, m.timestamp);
        let y = x.insert(p, m);
        assert forall|i: int, j: int| 0 <= i <= j < y.len() implies y[i].timestamp <= y[j].timestamp by {
            let xi = if i < p { i } else { i - 1 };
            let xj = if j < p { j } else { j - 1 };
            if i == p && j > p {
                assert(y[j] == x[xj]);
            } else if j == p && i < p {
                assert(y[i] == x[xi]);
            } else if i != p && j != p {
                assert(y[i] == x[xi] && y[j] == x[xj]);
            }
        }
    }
}

/// Inserts a message after every entry that is not newer, counting from the
/// back.
fn insert_by_time_exec(v: &mut Vec<Message>, m: Message)
    ensures
        final(v)@.map_values(|x: Message| x@) == insert_by_time(old(v)@.map_values(|x: Message| x@), m@),
{
    let ghost s = v@.map_values(|x: Message| x@);
    let mut p: usize = v.len();
    assert(s.subrange(0, p as int) =~= s);
    while p > 0 && v[p - 1].timestamp > m.timestamp
        invariant
            p <= v@.len(),
            s == v@.map_values(|x: Message| x@),
            time_pos(s, m.timestamp) == time_pos(s.subrange(0, p as int), m.timestamp),
        decreases p,
    {
        assert(s.subrange(0, p as int).drop_last() =~= s.subrange(0, p as int - 1));
        p = p - 1;
    }
    assert(time_pos(s.subrange(0, p as int), m.timestamp) == p as int) by {
        if p > 0 {
            assert(s.subrange(0, p as int).last() == s[p as int - 1]);
        }
    }
    let ghost mv = m@;
    v.insert(p, m);
    assert(v@.map_values(|x: Message| x@) =~= s.insert(p as int, mv));
}

/// A request for the history stamped after `since`, at most `limit` long.
#[derive(Clone, Copy, Debug, PartialEq, Eq, Structural)]
pub struct HistoryRequest {
    pub since: i64,
    pub limit: Option<usize>,
}

impl HistoryRequest {
    pub fn new(since: i64) -> (r: HistoryRequest)
        ensures
            r == (HistoryRequest { since, limit: None }),
    {
        HistoryRequest { since, limit: None }
    }

    pub fn with_limit(since: i64, limit: usize) -> (r: HistoryRequest)
        ensures
            r == (HistoryRequest { since, limit: Some(limit) }),
    {
        HistoryRequest { since, limit: Some(limit) }
    }
}

/// The messages stamped after `since`, oldest first, at most `limit` of
/// them (the oldest ones).
pub fn filter_history(messages: &Vec<Message>, since: i64, limit: Option<usize>) -> (r: Vec<Message>)
    ensures
        ({
            let all = sort_by_time(newer_than(messages@.map_values(|x: Message| x@), since));
            r@.map_values(|x: Message| x@) == match limit {
                Some(n) => if n < all.len() { all.take(n as int) } else { all },
                None => all,
            }
        }),
{
    let ghost ms = messages@.map_values(|x: Message| x@);
    let mut out: Vec<Message> = Vec::new();
    let mut i: usize = 0;
    assert(out@.map_values(|x: Message| x@) =~= Seq::<MessageView>::empty());
    while i < messages.len()
        invariant
            i <= messages@.len(),
            ms == messages@.map_values(|x: Message| x@),
            out@.map_values(|x: Message| x@) == sort_by_time(newer_than(ms.subrange(0, i as int), since)),
        decreases messages@.len() - i,
    {
        assert(ms.subrange(0, i as int + 1).drop_last() =~= ms.subrange(0, i as int));
        assert(ms.subrange(0, i as int + 1).last() == ms[i as int]);
        if messages[i].timestamp > since {
            let ghost before = newer_than(ms.subrange(0, i as int), since);
            assert(before.push(ms[i as int]).drop_last() =~= before);
            insert_by_time_exec(&mut out, messages[i].copy());
        }
        i = i + 1;
    }
    assert(ms.subrange(0, ms.len() as int) =~= ms);
    match limit {
        Some(n) => {
            if n < out.len() {
                let ghost all = out@.map_values(|x: Message| x@);
                out.truncate(n);
                assert(out@.map_values(|x: Message| x@) =~= all.take(n as int));
            }
        },
        None => {},
    }
    out
}

/// Whether a message still has to reach its peer.
pub fn needs_sync(message: &Message) -> (r: bool)
    ensures
        r == (status_rank(message.status) == Some(0int) || status_rank(message.status) == Some(1int)),
{
    status_needs_sync(&message.status)
}

fn id_listed(ids: &Vec<MessageId>, id: &MessageId) -> (r: bool)
    ensures
        r == ids@.map_values(|x: MessageId| x@).contains(id@),
{
    let mut i: usize = 0;
    while i < ids.len()
        invariant
            i <= ids@.len(),
            forall|k: int| 0 <= k < i ==> ids@[k]@ != id@,
        decreases ids@.len() - i,
    {
        if ids[i].same(id) {
            assert(ids@.map_values(|x: MessageId| x@)[i as int] == id@);
            return true;
        }
        i = i + 1;
    }
    false
}

/// The local messages whose id the peer does not have, in order.
pub fn diff_messages(local: &Vec<Message>, remote_ids: &Vec<MessageId>) -> (r: Vec<Message>)
    ensures
        r@.map_values(|x: Message| x@) == missing_from(local@.map_values(|x: Message| x@), remote_ids@.map_values(|x: MessageId| x@)),
{
    let ghost ms = local@.map_values(|x: Message| x@);
    let ghost ids = remote_ids@.map_values(|x: MessageId| x@);
    let mut out: Vec<Message> = Vec::new();
    let mut i: usize = 0;
    assert(out@.map_values(|x: Message| x@) =~= Seq::<MessageView>::empty());
    while i < local.len()
        invariant
            i <= local@.len(),
            ms == local@.map_values(|x: Message| x@),
            ids == remote_ids@.map_values(|x: MessageId| x@),
            out@.map_values(|x: Message| x@) == missing_from(ms.subrange(0, i as int), ids),
        decreases local@.len() - i,
    {
        assert(ms.subrange(0, i as int + 1).drop_last() =~= ms.subrange(0, i as int));
        assert(ms.subrange(0, i as int + 1).last() == ms[i as int]);
        if !id_listed(remote_ids, &local[i].id) {
            let ghost o = out@.map_values(|x: Message| x@);
            out.push(local[i].copy());
            assert(out@.map_values(|x: Message| x@) =~= o.push(ms[i as int]));
        }
        i = i + 1;
    }
    assert(ms.subrange(0, ms.len() as int) =~= ms);
    out
}


/// How final a status is: its rank, and 4 for `Failed`.
pub open spec fn priority_of(s: MessageStatus) -> int {
    match status_rank(s) {
        Some(k) => k,
        None => 4,
    }
}

/// Whether the table has an entry with this id.
pub open spec fn table_has(t: Seq<MessageView>, id: Seq<u8>) -> bool {
    exists|i: int| 0 <= i < t.len() && t[i].id == id
}

/// Whether table ids are unique.
pub open spec fn table_unique(t: Seq<MessageView>) -> bool {
    forall|i: int, j: int| 0 <= i < j < t.len() ==> t[i].id != t[j].id
}

/// Adds a message to a table keyed by id: it replaces an entry with its id
/// when `replace` says so, and otherwise goes to the end if its id is new.
pub open spec fn table_add(t: Seq<MessageView>, m: MessageView, keep_more_final: bool) -> Seq<MessageView> {
    if table_has(t, m.id) {
        let i = choose|i: int| 0 <= i < t.len() && t[i].id == m.id;
        if !keep_more_final || priority_of(m.status) > priority_of(t[i].status) {
            t.update(i, m)
        } else {
            t
        }
    } else {
        t.push(m)
    }
}

/// A table after adding each message in turn.
pub open spec fn table_add_all(t: Seq<MessageView>, ms: Seq<MessageView>, keep_more_final: bool) -> Seq<MessageView>
    decreases ms.len(),
{
    if ms.len() == 0 {
        t
    } else {
        table_add(table_add_all(t, ms.drop_last(), keep_more_final), ms.last(), keep_more_final)
    }
}

/// The merge as computed: a table of one entry per id (a later local copy
/// replaces an earlier one; a remote copy replaces the entry only when its
/// status is more final), sorted stably by timestamp. `lemma_merged_is_merge`
/// shows it meets `is_merge_of`.
pub open spec fn merged(local: Seq<MessageView>, remote: Seq<MessageView>) -> Seq<MessageView> {
    sort_by_time(table_add_all(table_add_all(Seq::empty(), local, false), remote, true))
}

fn table_add_exec(t: &mut Vec<Message>, m: Message, keep_more_final: bool)
    requires
        table_unique(old(t)@.map_values(|x: Message| x@)),
    ensures
        table_unique(final(t)@.map_values(|x: Message| x@)),
        final(t)@.map_values(|x: Message| x@) == table_add(old(t)@.map_values(|x: Message| x@), m@, keep_more_final),
{
    let ghost s = t@.map_values(|x: Message| x@);
    let ghost mv = m@;
    assert(s =~= old(t)@.map_values(|x: Message| x@));
    let mut i: usize = 0;
    while i < t.len()
        invariant
            i <= t@.len(),
            s == t@.map_values(|x: Message| x@),
            mv == m@,
            s == old(t)@.map_values(|x: Message| x@),
            table_unique(s),
            forall|k: int| 0 <= k < i ==> s[k].id != mv.id,
        decreases t@.len() - i,
    {
        assert(s[i as int] == t@[i as int]@);
        if t[i].id.same(&m.id) {
            proof {
                assert(s[i as int].id == mv.id);
                let j = choose|j: int| 0 <= j < s.len() && s[j].id == mv.id;
                if j != i as int {
                    if j < i { assert(s[j].id != s[i as int].id); } else { assert(s[i as int].id != s[j].id); }
                }
                assert(j == i as int);
                assert(table_has(s, mv.id));
            }
            let pm = status_priority(&m.status);
            let pt = status_priority(&t[i].status);
            assert(pm as int == priority_of(mv.status));
            assert(pt as int == priority_of(s[i as int].status));
            if !keep_more_final || pm > pt {
                t.set(i, m);
                assert(t@.map_values(|x: Message| x@) =~= s.update(i as int, mv));
                assert(table_add(s, mv, keep_more_final) == s.update(i as int, mv));
                assert forall|a: int, b: int| 0 <= a < b < s.len() implies s.update(i as int, mv)[a].id != s.update(i as int, mv)[b].id by {
                    assert(s.update(i as int, mv)[a].id == s[a].id && s.update(i as int, mv)[b].id == s[b].id);
                }
            } else {
                assert(t@.map_values(|x: Message| x@) == s);
                assert(table_add(s, mv, keep_more_final) == s);
            }
            return;
        }
        i = i + 1;
    }
    t.push(m);
    assert(t@.map_values(|x: Message| x@) =~= s.push(mv));
}

/// Merges local and remote histories: one message per id, where a remote
/// copy wins only with a more final status, ordered by timestamp.
pub fn merge_messages(local: Vec<Message>, remote: Vec<Message>) -> (r: Vec<Message>)
    ensures
        is_merge_of(r@.map_values(|x: Message| x@), local@.map_values(|x: Message| x@), remote@.map_values(|x: Message| x@)),
        r@.map_values(|x: Message| x@) == merged(local@.map_values(|x: Message| x@), remote@.map_values(|x: Message| x@)),
{
    let ghost ls = local@.map_values(|x: Message| x@);
    let ghost rs = remote@.map_values(|x: Message| x@);
    let mut table: Vec<Message> = Vec::new();
    assert(table@.map_values(|x: Message| x@) =~= Seq::<MessageView>::empty());
    let mut i: usize = 0;
    while i < local.len()
        invariant
            i <= local@.len(),
            ls == local@.map_values(|x: Message| x@),
            table_unique(table@.map_values(|x: Message| x@)),
            table@.map_values(|x: Message| x@) == table_add_all(Seq::empty(), ls.subrange(0, i as int), false),
        decreases local@.len() - i,
    {
        assert(ls.subrange(0, i as int + 1).drop_last() =~= ls.subrange(0, i as int));
        assert(ls.subrange(0, i as int + 1).last() == ls[i as int]);
        table_add_exec(&mut table, local[i].copy(), false);
        i = i + 1;
    }
    assert(ls.subrange(0, ls.len() as int) =~= ls);
    let ghost t0 = table@.map_values(|x: Message| x@);
    let mut j: usize = 0;
    while j < remote.len()
        invariant
            j <= remote@.len(),
            rs == remote@.map_values(|x: Message| x@),
            table_unique(table@.map_values(|x: Message| x@)),
            table@.map_values(|x: Message| x@) == table_add_all(t0, rs.subrange(0, j as int), true),
        decreases remote@.len() - j,
    {
        assert(rs.subrange(0, j as int + 1).drop_last() =~= rs.subrange(0, j as int));
        assert(rs.subrange(0, j as int + 1).last() == rs[j as int]);
        table_add_exec(&mut table, remote[j].copy(), true);
        j = j + 1;
    }
    assert(rs.subrange(0, rs.len() as int) =~= rs);
    let ghost tv = table@.map_values(|x: Message| x@);
    let mut out: Vec<Message> = Vec::new();
    assert(out@.map_values(|x: Message| x@) =~= Seq::<MessageView>::empty());
    let mut k: usize = 0;
    while k < table.len()
        invariant
            k <= table@.len(),
            tv == table@.map_values(|x: Message| x@),
            out@.map_values(|x: Message| x@) == sort_by_time(tv.subrange(0, k as int)),
        decreases table@.len() - k,
    {
        assert(tv.subrange(0, k as int + 1).drop_last() =~= tv.subrange(0, k as int));
        assert(tv.subrange(0, k as int + 1).last() == tv[k as int]);
        insert_by_time_exec(&mut out, table[k].copy());
        k = k + 1;
    }
    assert(tv.subrange(0, tv.len() as int) =~= tv);
    proof {
        lemma_merged_is_merge(ls, rs);
    }
    out
}


/// Whether some message of `s` has id `x`.
pub open spec fn has_id(s: Seq<MessageView>, x: Seq<u8>) -> bool {
    exists|k: int| 0 <= k < s.len() && s[k].id == x
}

/// The last message of `s` with id `x`, if any.
pub open spec fn last_with_id(s: Seq<MessageView>, x: Seq<u8>) -> Option<MessageView>
    decreases s.len(),
{
    if s.len() == 0 {
        None
    } else if s.last().id == x {
        Some(s.last())
    } else {
        last_with_id(s.drop_last(), x)
    }
}

/// The messages of `s` with id `x`, in order.
pub open spec fn all_with_id(s: Seq<MessageView>, x: Seq<u8>) -> Seq<MessageView>
    decreases s.len(),
{
    if s.len() == 0 {
        Seq::empty()
    } else if s.last().id == x {
        all_with_id(s.drop_last(), x).push(s.last())
    } else {
        all_with_id(s.drop_last(), x)
    }
}

/// The copies of message `x` that compete in a merge: the last local copy,
/// if any, then the remote copies in order.
pub open spec fn candidates(local: Seq<MessageView>, remote: Seq<MessageView>, x: Seq<u8>) -> Seq<MessageView> {
    match last_with_id(local, x) {
        Some(m) => seq![m] + all_with_id(remote, x),
        None => all_with_id(remote, x),
    }
}

/// Whether `w` is the first of the candidates `c` with the most final status.
pub open spec fn first_most_final(c: Seq<MessageView>, w: MessageView) -> bool {
    exists|i: int|
        0 <= i < c.len() && c[i] == w && (forall|j: int| 0 <= j < c.len() ==> priority_of(c[j].status)
            <= priority_of(w.status)) && (forall|j: int| 0 <= j < i ==> priority_of(c[j].status)
            < priority_of(w.status))
}

/// Whether `r` is a merge of the histories `local` and `remote`: one message
/// per id that either holds, each the first most final of its candidates,
/// ordered by timestamp.
pub open spec fn is_merge_of(r: Seq<MessageView>, local: Seq<MessageView>, remote: Seq<MessageView>) -> bool {
    &&& time_sorted(r)
    &&& table_unique(r)
    &&& forall|x: Seq<u8>| has_id(r, x) <==> (has_id(local, x) || has_id(remote, x))
    &&& forall|k: int| 0 <= k < r.len() ==> first_most_final(candidates(local, remote, r[k].id), #[trigger] r[k])
}

proof fn lemma_last_with_id(s: Seq<MessageView>, x: Seq<u8>)
    ensures
        last_with_id(s, x) is Some <==> has_id(s, x),
        last_with_id(s, x) is Some ==> last_with_id(s, x).unwrap().id == x,
    decreases s.len(),
{
    if s.len() > 0 {
        lemma_last_with_id(s.drop_last(), x);
        if has_id(s.drop_last(), x) {
            let k = choose|k: int| 0 <= k < s.drop_last().len() && s.drop_last()[k].id == x;
            assert(s[k].id == x);
        }
        if has_id(s, x) && s.last().id != x {
            let k = choose|k: int| 0 <= k < s.len() && s[k].id == x;
            assert(s.drop_last()[k].id == x);
        }
    }
}

/// After the local phase, the table holds, for each id of `local`, its last
/// local copy.
proof fn lemma_local_phase(ls: Seq<MessageView>)
    ensures
        table_unique(table_add_all(Seq::empty(), ls, false)),
        forall|x: Seq<u8>| has_id(table_add_all(Seq::empty(), ls, false), x) <==> has_id(ls, x),
        forall|k: int| 0 <= k < table_add_all(Seq::empty(), ls, false).len() ==>
            last_with_id(ls, #[trigger] table_add_all(Seq::empty(), ls, false)[k].id) == Some(table_add_all(Seq::empty(), ls, false)[k]),
    decreases ls.len(),
{
    if ls.len() > 0 {
        let init = ls.drop_last();
        let m = ls.last();
        lemma_local_phase(init);
        let t = table_add_all(Seq::empty(), init, false);
        let u = table_add_all(Seq::empty(), ls, false);
        assert(u == table_add(t, m, false));
        if table_has(t, m.id) {
            let i = choose|i: int| 0 <= i < t.len() && t[i].id == m.id;
            assert(u == t.update(i, m));
            assert forall|a: int, b: int| 0 <= a < b < u.len() implies u[a].id != u[b].id by {
                assert(u[a].id == t[a].id && u[b].id == t[b].id);
            }
            assert forall|x: Seq<u8>| has_id(u, x) <==> has_id(ls, x) by {
                if has_id(u, x) {
                    let k = choose|k: int| 0 <= k < u.len() && u[k].id == x;
                    assert(t[k].id == x);
                    assert(has_id(init, x));
                    let j = choose|j: int| 0 <= j < init.len() && init[j].id == x;
                    assert(ls[j].id == x);
                }
                if has_id(ls, x) {
                    let j = choose|j: int| 0 <= j < ls.len() && ls[j].id == x;
                    if j < init.len() {
                        assert(init[j].id == x);
                        assert(has_id(init, x));
                        assert(has_id(t, x));
                        let k = choose|k: int| 0 <= k < t.len() && t[k].id == x;
                        assert(u[k].id == x);
                    } else {
                        assert(u[i].id == x);
                    }
                }
            }
            assert forall|k: int| 0 <= k < u.len() implies last_with_id(ls, #[trigger] u[k].id) == Some(u[k]) by {
                if k != i {
                    assert(u[k] == t[k]);
                    assert(t[k].id != t[i].id);
                }
            }
        } else {
            assert(u == t.push(m));
            assert forall|a: int, b: int| 0 <= a < b < u.len() implies u[a].id != u[b].id by {
                if b == t.len() {
                    assert(u[a] == t[a]);
                    assert(!(0 <= a < t.len() && t[a].id == m.id));
                }
            }
            assert forall|x: Seq<u8>| has_id(u, x) <==> has_id(ls, x) by {
                if has_id(u, x) {
                    let k = choose|k: int| 0 <= k < u.len() && u[k].id == x;
                    if k < t.len() {
                        assert(t[k].id == x);
                        assert(has_id(t, x));
                        assert(has_id(init, x));
                        let j = choose|j: int| 0 <= j < init.len() && init[j].id == x;
                        assert(ls[j].id == x);
                    } else {
                        assert(ls[ls.len() - 1].id == x);
                    }
                }
                if has_id(ls, x) {
                    let j = choose|j: int| 0 <= j < ls.len() && ls[j].id == x;
                    if j < init.len() {
                        assert(init[j].id == x);
                        assert(has_id(init, x));
                        assert(has_id(t, x));
                        let k = choose|k: int| 0 <= k < t.len() && t[k].id == x;
                        assert(u[k].id == x);
                    } else {
                        assert(u[t.len() as int].id == x);
                    }
                }
            }
            assert forall|k: int| 0 <= k < u.len() implies last_with_id(ls, #[trigger] u[k].id) == Some(u[k]) by {
                if k < t.len() {
                    assert(u[k] == t[k]);
                    assert(t[k].id != m.id);
                }
            }
        }
    }
}


proof fn lemma_all_with_id_absent(s: Seq<MessageView>, x: Seq<u8>)
    requires
        !has_id(s, x),
    ensures
        all_with_id(s, x).len() == 0,
    decreases s.len(),
{
    if s.len() > 0 {
        assert(s[s.len() - 1] == s.last());
        assert(!has_id(s.drop_last(), x)) by {
            if has_id(s.drop_last(), x) {
                let k = choose|k: int| 0 <= k < s.drop_last().len() && s.drop_last()[k].id == x;
                assert(s[k].id == x);
            }
        }
        lemma_all_with_id_absent(s.drop_last(), x);
    }
}

proof fn lemma_candidates_step(ls: Seq<MessageView>, rs: Seq<MessageView>, x: Seq<u8>)
    requires
        rs.len() > 0,
    ensures
        candidates(ls, rs, x) == (if rs.last().id == x {
            candidates(ls, rs.drop_last(), x).push(rs.last())
        } else {
            candidates(ls, rs.drop_last(), x)
        }),
{
    match last_with_id(ls, x) {
        Some(m) => {
            if rs.last().id == x {
                assert(seq![m] + all_with_id(rs.drop_last(), x).push(rs.last()) =~= (seq![m] + all_with_id(rs.drop_last(), x)).push(rs.last()));
            }
        },
        None => {},
    }
}

/// After the remote phase, the table holds one message per id of either
/// history: the first most final of its candidates.
proof fn lemma_remote_phase(ls: Seq<MessageView>, rs: Seq<MessageView>)
    ensures
        table_unique(table_add_all(table_add_all(Seq::empty(), ls, false), rs, true)),
        forall|x: Seq<u8>| has_id(table_add_all(table_add_all(Seq::empty(), ls, false), rs, true), x)
            <==> (has_id(ls, x) || has_id(rs, x)),
        forall|k: int| 0 <= k < table_add_all(table_add_all(Seq::empty(), ls, false), rs, true).len() ==>
            first_most_final(candidates(ls, rs, table_add_all(table_add_all(Seq::empty(), ls, false), rs, true)[k].id),
                #[trigger] table_add_all(table_add_all(Seq::empty(), ls, false), rs, true)[k]),
    decreases rs.len(),
{
    let l0 = table_add_all(Seq::empty(), ls, false);
    lemma_local_phase(ls);
    if rs.len() == 0 {
        assert(table_add_all(l0, rs, true) == l0);
        assert forall|x: Seq<u8>| has_id(l0, x) <==> (has_id(ls, x) || has_id(rs, x)) by {}
        assert forall|k: int| 0 <= k < l0.len() implies first_most_final(candidates(ls, rs, l0[k].id), #[trigger] l0[k]) by {
            assert(last_with_id(ls, l0[k].id) == Some(l0[k]));
            assert(all_with_id(rs, l0[k].id) =~= Seq::<MessageView>::empty());
            let c = candidates(ls, rs, l0[k].id);
            assert(c =~= seq![l0[k]]);
            assert(c[0] == l0[k]);
        }
    } else {
        let init = rs.drop_last();
        let m = rs.last();
        lemma_remote_phase(ls, init);
        let t0 = table_add_all(l0, init, true);
        let t = table_add_all(l0, rs, true);
        assert(t == table_add(t0, m, true));
        assert forall|x: Seq<u8>| (has_id(rs, x) <==> (has_id(init, x) || m.id == x)) by {
            if has_id(rs, x) {
                let k = choose|k: int| 0 <= k < rs.len() && rs[k].id == x;
                if k < init.len() { assert(init[k].id == x); }
            }
            if has_id(init, x) {
                let k = choose|k: int| 0 <= k < init.len() && init[k].id == x;
                assert(rs[k].id == x);
            }
            if m.id == x {
                assert(rs[rs.len() - 1].id == x);
            }
        }
        if table_has(t0, m.id) {
            let i = choose|i: int| 0 <= i < t0.len() && t0[i].id == m.id;
            let c = t0[i];
            let c0 = candidates(ls, init, m.id);
            lemma_candidates_step(ls, rs, m.id);
            assert(candidates(ls, rs, m.id) == c0.push(m));
            assert(first_most_final(c0, c));
            let ii = choose|ii: int| 0 <= ii < c0.len() && c0[ii] == c && (forall|j: int| 0 <= j < c0.len() ==> priority_of(c0[j].status)
                <= priority_of(c.status)) && (forall|j: int| 0 <= j < ii ==> priority_of(c0[j].status) < priority_of(c.status));
            let c1 = c0.push(m);
            if priority_of(m.status) > priority_of(c.status) {
                assert(t == t0.update(i, m));
                assert(c1[c0.len() as int] == m);
                assert(first_most_final(c1, m));
            } else {
                assert(t == t0);
                assert(c1[ii] == c);
                assert(first_most_final(c1, c));
            }
            assert forall|a: int, b: int| 0 <= a < b < t.len() implies t[a].id != t[b].id by {
                assert(t[a].id == t0[a].id && t[b].id == t0[b].id);
            }
            assert forall|x: Seq<u8>| has_id(t, x) <==> (has_id(ls, x) || has_id(rs, x)) by {
                if has_id(t, x) {
                    let k = choose|k: int| 0 <= k < t.len() && t[k].id == x;
                    assert(t0[k].id == x);
                    assert(has_id(t0, x));
                }
                if has_id(ls, x) || has_id(init, x) {
                    assert(has_id(t0, x));
                    let k = choose|k: int| 0 <= k < t0.len() && t0[k].id == x;
                    assert(t[k].id == x);
                }
                if m.id == x {
                    assert(t[i].id == x);
                }
            }
            assert forall|k: int| 0 <= k < t.len() implies first_most_final(candidates(ls, rs, t[k].id), #[trigger] t[k]) by {
                if k != i {
                    assert(t[k] == t0[k]);
                    assert(t0[k].id != t0[i].id);
                    lemma_candidates_step(ls, rs, t[k].id);
                }
            }
        } else {
            assert(t == t0.push(m));
            assert(!has_id(t0, m.id)) by {
                if has_id(t0, m.id) {
                    let k = choose|k: int| 0 <= k < t0.len() && t0[k].id == m.id;
                    assert(table_has(t0, m.id));
                }
            }
            assert(!has_id(ls, m.id) && !has_id(init, m.id));
            lemma_last_with_id(ls, m.id);
            lemma_all_with_id_absent(init, m.id);
            lemma_candidates_step(ls, rs, m.id);
            let c1 = candidates(ls, rs, m.id);
            assert(c1 =~= seq![m]);
            assert(c1[0] == m);
            assert forall|a: int, b: int| 0 <= a < b < t.len() implies t[a].id != t[b].id by {
                if b == t0.len() {
                    assert(t[a] == t0[a]);
                    assert(t0[a].id != m.id) by {
                        if t0[a].id == m.id { assert(has_id(t0, m.id)); }
                    }
                }
            }
            assert forall|x: Seq<u8>| has_id(t, x) <==> (has_id(ls, x) || has_id(rs, x)) by {
                if has_id(t, x) {
                    let k = choose|k: int| 0 <= k < t.len() && t[k].id == x;
                    if k < t0.len() {
                        assert(t0[k].id == x);
                        assert(has_id(t0, x));
                    }
                }
                if has_id(ls, x) || has_id(init, x) {
                    assert(has_id(t0, x));
                    let k = choose|k: int| 0 <= k < t0.len() && t0[k].id == x;
                    assert(t[k].id == x);
                }
                if m.id == x {
                    assert(t[t0.len() as int].id == x);
                }
            }
            assert forall|k: int| 0 <= k < t.len() implies first_most_final(candidates(ls, rs, t[k].id), #[trigger] t[k]) by {
                if k < t0.len() {
                    assert(t[k] == t0[k]);
                    assert(t0[k].id != m.id) by {
                        if t0[k].id == m.id { assert(has_id(t0, m.id)); }
                    }
                    lemma_candidates_step(ls, rs, t[k].id);
                } else {
                    assert(t[k] == m);
                    assert(first_most_final(c1, m));
                }
            }
        }
    }
}


#[verifier::rlimit(100)]
proof fn lemma_sort_permutes(s: Seq<MessageView>)
    ensures
        sort_by_time(s).len() == s.len(),
        forall|k: int| 0 <= k < sort_by_time(s).len() ==> exists|j: int| 0 <= j < s.len() && s[j] == #[trigger] sort_by_time(s)[k],
        forall|j: int| 0 <= j < s.len() ==> exists|k: int| 0 <= k < sort_by_time(s).len() && sort_by_time(s)[k] == #[trigger] s[j],
    decreases s.len(),
{
    if s.len() > 0 {
        let init = s.drop_last();
        let m = s.last();
        lemma_sort_permutes(init);
        let x = sort_by_time(init);
        let p = time_pos(x, m.timestamp);
        lemma_time_pos_bounds(x, m.timestamp);
        let y = sort_by_time(s);
        assert(y == x.insert(p, m));
        assert forall|k: int| 0 <= k < y.len() implies exists|j: int| 0 <= j < s.len() && s[j] == #[trigger] y[k] by {
            if k == p {
                assert(s[s.len() - 1] == y[k]);
            } else {
                let xk = if k < p { k } else { k - 1 };
                assert(y[k] == x[xk]);
                let j = choose|j: int| 0 <= j < init.len() && init[j] == x[xk];
                assert(s[j] == y[k]);
            }
        }
        assert forall|j: int| 0 <= j < s.len() implies exists|k: int| 0 <= k < y.len() && y[k] == #[trigger] s[j] by {
            if j == s.len() - 1 {
                assert(y[p] == s[j]);
            } else {
                assert(s[j] == init[j]);
                let k = choose|k: int| 0 <= k < x.len() && x[k] == init[j];
                if k < p {
                    assert(y[k] == s[j]);
                } else {
                    assert(y[k + 1] == s[j]);
                }
            }
        }
    }
}

#[verifier::rlimit(100)]
proof fn lemma_sort_keeps_unique(s: Seq<MessageView>)
    requires
        table_unique(s),
    ensures
        table_unique(sort_by_time(s)),
    decreases s.len(),
{
    if s.len() > 0 {
        let init = s.drop_last();
        let m = s.last();
        assert forall|a: int, b: int| 0 <= a < b < init.len() implies init[a].id != init[b].id by {
            assert(init[a] == s[a] && init[b] == s[b]);
        }
        lemma_sort_keeps_unique(init);
        lemma_sort_permutes(init);
        let x = sort_by_time(init);
        let p = time_pos(x, m.timestamp);
        lemma_time_pos_bounds(x, m.timestamp);
        let y = sort_by_time(s);
        assert(y == x.insert(p, m));
        assert forall|k: int| 0 <= k < x.len() implies x[k].id != m.id by {
            let j = choose|j: int| 0 <= j < init.len() && init[j] == x[k];
            assert(s[j] == init[j]);
        }
        assert forall|a: int, b: int| 0 <= a < b < y.len() implies y[a].id != y[b].id by {
            let xa = if a < p { a } else { a - 1 };
            let xb = if b < p { b } else { b - 1 };
            if a == p {
                assert(y[b] == x[xb]);
            } else if b == p {
                assert(y[a] == x[xa]);
            } else {
                assert(y[a] == x[xa] && y[b] == x[xb]);
            }
        }
    }
}

/// The merge of two histories is a merge in the direct sense: one message
/// per id that either history holds, each the first of its candidates (the
/// last local copy, then the remote copies) with the most final status, all
/// ordered by timestamp.
pub proof fn lemma_merged_is_merge(local: Seq<MessageView>, remote: Seq<MessageView>)
    ensures
        is_merge_of(merged(local, remote), local, remote),
{
    let t = table_add_all(table_add_all(Seq::empty(), local, false), remote, true);
    lemma_remote_phase(local, remote);
    lemma_sort_permutes(t);
    lemma_sort_keeps_unique(t);
    lemma_sort_by_time_sorted(t);
    let r = merged(local, remote);
    assert(r == sort_by_time(t));
    assert forall|x: Seq<u8>| has_id(r, x) <==> (has_id(local, x) || has_id(remote, x)) by {
        if has_id(r, x) {
            let k = choose|k: int| 0 <= k < r.len() && r[k].id == x;
            let j = choose|j: int| 0 <= j < t.len() && t[j] == r[k];
            assert(has_id(t, x));
        }
        if has_id(local, x) || has_id(remote, x) {
            assert(has_id(t, x));
            let j = choose|j: int| 0 <= j < t.len() && t[j].id == x;
            let k = choose|k: int| 0 <= k < r.len() && r[k] == t[j];
            assert(r[k].id == x);
        }
    }
    assert forall|k: int| 0 <= k < r.len() implies first_most_final(candidates(local, remote, r[k].id), #[trigger] r[k]) by {
        let j = choose|j: int| 0 <= j < t.len() && t[j] == r[k];
        assert(first_most_final(candidates(local, remote, t[j].id), t[j]));
    }
}

} // verus!
