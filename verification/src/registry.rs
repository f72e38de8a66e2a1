//! The node registry: the authoritative snapshot of known nodes.
//!
//! The registry keeps its records sorted by node id, which makes node ids
//! unique, gives `snapshot` its deterministic order, and gives placement
//! a deterministic tie-break.  Its central well-formedness property is the
//! load invariant: every record satisfies
//! `0 <= current_load <= capacity`.
//!
//! A heartbeat refresh goes through [`Registry::upsert`], which never
//! resets a load the registry itself is tracking, never lowers a recorded
//! heartbeat timestamp, and never changes a node's capacity after the node
//! was first observed.

use vstd::prelude::*;

use crate::common::{NodeInfo, NodeRecord};
use crate::text::{
    lemma_lex_lt_connected, lemma_lex_lt_irreflexive, lemma_lex_lt_neq, lemma_lex_lt_transitive,
    lex_lt, str_eq, str_lt,
};

verus! {

/// Errors from registry mutations.
#[derive(Clone, Copy, Debug, PartialEq, Eq, Structural)]
pub enum RegistryError {
    /// The named node is not in the registry.
    UnknownNode,
    /// The adjustment would drive a load outside `0..=capacity`.
    CapacityExceeded,
}

/// Every record keeps its load within its capacity.
pub open spec fn loads_wf(s: Seq<NodeRecord>) -> bool {
    forall|i: int| 0 <= i < s.len() ==> (#[trigger] s[i]).current_load <= s[i].capacity
}

/// Records are strictly sorted by node id.
pub open spec fn sorted_by_id(s: Seq<NodeRecord>) -> bool {
    forall|i: int, j: int|
        0 <= i < j < s.len() ==> lex_lt(#[trigger] s[i].node_id, #[trigger] s[j].node_id)
}

/// Whether some record carries the given node id.
pub open spec fn has_id(s: Seq<NodeRecord>, id: Seq<char>) -> bool {
    exists|i: int| 0 <= i < s.len() && (#[trigger] s[i]).node_id == id
}

/// The index of the record carrying the given node id.
pub open spec fn index_of_id(s: Seq<NodeRecord>, id: Seq<char>) -> int {
    choose|i: int| 0 <= i < s.len() && (#[trigger] s[i]).node_id == id
}

/// The record carrying the given node id.
pub open spec fn record_of(s: Seq<NodeRecord>, id: Seq<char>) -> NodeRecord {
    s[index_of_id(s, id)]
}

/// In a sorted sequence an id determines its index: any position holding
/// the id is the position every lookup agrees on.
pub proof fn lemma_index_unique(s: Seq<NodeRecord>, id: Seq<char>, i: int)
    requires
        sorted_by_id(s),
        0 <= i < s.len(),
        s[i].node_id == id,
    ensures
        has_id(s, id),
        index_of_id(s, id) == i,
        record_of(s, id) == s[i],
{
    assert(has_id(s, id));
    let j = index_of_id(s, id);
    if j < i {
        lemma_lex_lt_neq(s[j].node_id, s[i].node_id);
    } else if i < j {
        lemma_lex_lt_neq(s[i].node_id, s[j].node_id);
    }
}

/// How a heartbeat refreshes an existing record: the load the registry
/// tracks and the capacity observed at creation are preserved, the
/// recorded heartbeat timestamp never moves backward, and the rest is
/// taken from the incoming record.
pub open spec fn refreshed_record(existing: NodeRecord, incoming: NodeRecord) -> NodeRecord {
    NodeRecord {
        node_id: existing.node_id,
        node_type: incoming.node_type,
        last_heartbeat: if existing.last_heartbeat >= incoming.last_heartbeat {
            existing.last_heartbeat
        } else {
            incoming.last_heartbeat
        },
        status: incoming.status,
        capacity: existing.capacity,
        current_load: existing.current_load,
        version: incoming.version,
        metadata: incoming.metadata,
    }
}

/// A node observed for the first time: the registry starts tracking its
/// load at zero.
pub open spec fn fresh_record(incoming: NodeRecord) -> NodeRecord {
    NodeRecord {
        node_id: incoming.node_id,
        node_type: incoming.node_type,
        last_heartbeat: incoming.last_heartbeat,
        status: incoming.status,
        capacity: incoming.capacity,
        current_load: 0,
        version: incoming.version,
        metadata: incoming.metadata,
    }
}

/// The position at which a record with the given id lives or would be
/// inserted: the first position whose id does not precede `id`.
pub open spec fn insert_pos(s: Seq<NodeRecord>, id: Seq<char>) -> int
    decreases s.len(),
{
    if s.len() == 0 {
        0
    } else if lex_lt(s[0].node_id, id) {
        1 + insert_pos(s.drop_first(), id)
    } else {
        0
    }
}

/// `insert_pos` is within bounds, everything before it precedes `id`, and
/// the record at it (if any) does not.
pub proof fn lemma_insert_pos_bounds(s: Seq<NodeRecord>, id: Seq<char>)
    ensures
        0 <= insert_pos(s, id) <= s.len(),
        forall|k: int| 0 <= k < insert_pos(s, id) ==> lex_lt(#[trigger] s[k].node_id, id),
        insert_pos(s, id) < s.len() ==> !lex_lt(s[insert_pos(s, id)].node_id, id),
    decreases s.len(),
{
    if s.len() > 0 && lex_lt(s[0].node_id, id) {
        lemma_insert_pos_bounds(s.drop_first(), id);
        assert forall|k: int| 0 <= k < insert_pos(s, id) implies lex_lt(
            #[trigger] s[k].node_id,
            id,
        ) by {
            if k > 0 {
                assert(s.drop_first()[k - 1] == s[k]);
            }
        }
    }
}

/// Any position with the properties of `lemma_insert_pos_bounds` is
/// `insert_pos` itself.
pub proof fn lemma_insert_pos_agrees(s: Seq<NodeRecord>, id: Seq<char>, p: int)
    requires
        0 <= p <= s.len(),
        forall|k: int| 0 <= k < p ==> lex_lt(#[trigger] s[k].node_id, id),
        p < s.len() ==> !lex_lt(s[p].node_id, id),
    ensures
        insert_pos(s, id) == p,
    decreases s.len(),
{
    if p == 0 {
    } else {
        assert(lex_lt(s[0].node_id, id));
        assert forall|k: int| 0 <= k < p - 1 implies lex_lt(
            #[trigger] s.drop_first()[k].node_id,
            id,
        ) by {
            assert(s.drop_first()[k] == s[k + 1]);
        }
        if p - 1 < s.drop_first().len() {
            assert(s.drop_first()[p - 1] == s[p]);
        }
        lemma_insert_pos_agrees(s.drop_first(), id, p - 1);
    }
}

/// The registry contents after one heartbeat record is applied.
pub open spec fn spec_upsert(s: Seq<NodeRecord>, incoming: NodeRecord) -> Seq<NodeRecord> {
    let p = insert_pos(s, incoming.node_id);
    if p < s.len() && s[p].node_id == incoming.node_id {
        s.update(p, refreshed_record(s[p], incoming))
    } else {
        s.insert(p, fresh_record(incoming))
    }
}

/// The registry contents after one node is removed; removing an unknown
/// node changes nothing.
pub open spec fn spec_remove(s: Seq<NodeRecord>, id: Seq<char>) -> Seq<NodeRecord> {
    if has_id(s, id) {
        s.remove(index_of_id(s, id))
    } else {
        s
    }
}

/// One record with its tracked load replaced.
pub open spec fn with_load(rec: NodeRecord, load: u32) -> NodeRecord {
    NodeRecord {
        node_id: rec.node_id,
        node_type: rec.node_type,
        last_heartbeat: rec.last_heartbeat,
        status: rec.status,
        capacity: rec.capacity,
        current_load: load,
        version: rec.version,
        metadata: rec.metadata,
    }
}

/// Applying a heartbeat keeps the records sorted by node id.
pub proof fn lemma_spec_upsert_sorted(s: Seq<NodeRecord>, rec: NodeRecord)
    requires
        sorted_by_id(s),
    ensures
        sorted_by_id(spec_upsert(s, rec)),
{
    let id = rec.node_id;
    let p = insert_pos(s, id);
    lemma_insert_pos_bounds(s, id);
    let s1 = spec_upsert(s, rec);
    if p < s.len() && s[p].node_id == id {
        assert forall|i: int, j: int| 0 <= i < j < s1.len() implies lex_lt(
            #[trigger] s1[i].node_id,
            #[trigger] s1[j].node_id,
        ) by {
            assert(s1[i].node_id == s[i].node_id);
            assert(s1[j].node_id == s[j].node_id);
        }
    } else {
        if p < s.len() {
            assert(s[p].node_id != id);
            if !lex_lt(id, s[p].node_id) {
                lemma_lex_lt_connected(s[p].node_id, id);
            }
            assert(lex_lt(id, s[p].node_id));
        }
        assert forall|i: int, j: int| 0 <= i < j < s1.len() implies lex_lt(
            #[trigger] s1[i].node_id,
            #[trigger] s1[j].node_id,
        ) by {
            if i < p && j == p {
                assert(s1[i].node_id == s[i].node_id);
            } else if i == p && j > p {
                assert(s1[j].node_id == s[j - 1].node_id);
                if j - 1 > p {
                    lemma_lex_lt_transitive(id, s[p].node_id, s[j - 1].node_id);
                }
            } else if i < p && j > p {
                assert(s1[i].node_id == s[i].node_id);
                assert(s1[j].node_id == s[j - 1].node_id);
            } else if i > p {
                assert(s1[i].node_id == s[i - 1].node_id);
                assert(s1[j].node_id == s[j - 1].node_id);
            } else {
                assert(s1[i].node_id == s[i].node_id);
                assert(s1[j].node_id == s[j].node_id);
            }
        }
    }
}

/// Applying a heartbeat keeps every load within its capacity: a refresh
/// keeps the tracked load and capacity, a first observation starts at
/// load zero.
pub proof fn lemma_spec_upsert_loads(s: Seq<NodeRecord>, rec: NodeRecord)
    requires
        loads_wf(s),
    ensures
        loads_wf(spec_upsert(s, rec)),
{
    let id = rec.node_id;
    let p = insert_pos(s, id);
    lemma_insert_pos_bounds(s, id);
    let s1 = spec_upsert(s, rec);
    assert forall|i: int| 0 <= i < s1.len() implies (#[trigger] s1[i]).current_load
        <= s1[i].capacity by {
        if p < s.len() && s[p].node_id == id {
            assert(s1[i] == s.update(p, refreshed_record(s[p], rec))[i]);
        } else {
            if i < p {
                assert(s1[i] == s[i]);
            } else if i > p {
                assert(s1[i] == s[i - 1]);
            }
        }
    }
}

/// What one heartbeat does, id by id: the sender's record is refreshed or
/// created, and every other node's record is untouched.
pub proof fn lemma_spec_upsert_effect(s: Seq<NodeRecord>, rec: NodeRecord)
    requires
        sorted_by_id(s),
    ensures
        has_id(spec_upsert(s, rec), rec.node_id),
        record_of(spec_upsert(s, rec), rec.node_id) == if has_id(s, rec.node_id) {
            refreshed_record(record_of(s, rec.node_id), rec)
        } else {
            fresh_record(rec)
        },
        forall|id2: Seq<char>|
            id2 != rec.node_id ==> #[trigger] has_id(spec_upsert(s, rec), id2) == has_id(s, id2),
        forall|id2: Seq<char>|
            id2 != rec.node_id && has_id(s, id2) ==> #[trigger] record_of(spec_upsert(s, rec), id2)
                == record_of(s, id2),
{
    let id = rec.node_id;
    let p = insert_pos(s, id);
    lemma_insert_pos_bounds(s, id);
    lemma_spec_upsert_sorted(s, rec);
    let s1 = spec_upsert(s, rec);
    assert(s1[p].node_id == id);
    lemma_index_unique(s1, id, p);
    if has_id(s, id) {
        let i = index_of_id(s, id);
        assert(s[i].node_id == id);
        if i < p {
            lemma_lex_lt_neq(s[i].node_id, id);
        } else if i > p {
            assert(lex_lt(s[p].node_id, s[i].node_id));
        }
        assert(i == p);
        assert(record_of(s1, id) == refreshed_record(record_of(s, id), rec));
    } else {
        assert(!(p < s.len() && s[p].node_id == id));
        assert(record_of(s1, id) == fresh_record(rec));
    }
    assert forall|id2: Seq<char>| id2 != id implies #[trigger] has_id(s1, id2) == has_id(
        s,
        id2,
    ) by {
        lemma_spec_upsert_membership(s, rec, id2);
    }
    assert forall|id2: Seq<char>| id2 != id && has_id(s, id2) implies #[trigger] record_of(
        s1,
        id2,
    ) == record_of(s, id2) by {
        lemma_spec_upsert_membership(s, rec, id2);
    }
}

/// Helper for `lemma_spec_upsert_effect`: membership and records of other
/// nodes are untouched by one heartbeat.
proof fn lemma_spec_upsert_membership(s: Seq<NodeRecord>, rec: NodeRecord, id2: Seq<char>)
    requires
        sorted_by_id(s),
        id2 != rec.node_id,
    ensures
        has_id(spec_upsert(s, rec), id2) == has_id(s, id2),
        has_id(s, id2) ==> record_of(spec_upsert(s, rec), id2) == record_of(s, id2),
{
    let id = rec.node_id;
    let p = insert_pos(s, id);
    lemma_insert_pos_bounds(s, id);
    lemma_spec_upsert_sorted(s, rec);
    let s1 = spec_upsert(s, rec);
    if p < s.len() && s[p].node_id == id {
        if has_id(s, id2) {
            let i = index_of_id(s, id2);
            assert(s[i].node_id == id2);
            assert(i != p);
            assert(s1[i] == s[i]);
            lemma_index_unique(s1, id2, i);
            lemma_index_unique(s, id2, i);
        }
        if has_id(s1, id2) {
            let j = index_of_id(s1, id2);
            assert(s1[j].node_id == id2);
            assert(j != p);
            assert(s1[j] == s[j]);
            assert(has_id(s, id2));
        }
    } else {
        if has_id(s, id2) {
            let i = index_of_id(s, id2);
            assert(s[i].node_id == id2);
            let i1 = if i < p {
                i
            } else {
                i + 1
            };
            assert(s1[i1] == s[i]);
            lemma_index_unique(s1, id2, i1);
            lemma_index_unique(s, id2, i);
        }
        if has_id(s1, id2) {
            let j = index_of_id(s1, id2);
            assert(s1[j].node_id == id2);
            assert(j != p);
            let j0 = if j < p {
                j
            } else {
                j - 1
            };
            assert(s1[j] == s[j0]);
            assert(has_id(s, id2));
        }
    }
}

/// For every record in a well-formed registry the tracked load lies
/// within `0..=capacity`.
pub proof fn lemma_load_invariant(s: Seq<NodeRecord>)
    requires
        loads_wf(s),
    ensures
        forall|i: int|
            0 <= i < s.len() ==> 0 <= (#[trigger] s[i]).current_load <= s[i].capacity,
{
}

/// Applying the same heartbeat record twice in a row is the same as
/// applying it once; in particular no node's tracked load changes on the
/// second application.
pub proof fn lemma_upsert_idempotent(s: Seq<NodeRecord>, rec: NodeRecord)
    requires
        sorted_by_id(s),
    ensures
        spec_upsert(spec_upsert(s, rec), rec) == spec_upsert(s, rec),
{
    let id = rec.node_id;
    let p = insert_pos(s, id);
    lemma_insert_pos_bounds(s, id);
    lemma_spec_upsert_sorted(s, rec);
    lemma_lex_lt_irreflexive(id);
    let s1 = spec_upsert(s, rec);
    assert forall|k: int| 0 <= k < p implies lex_lt(#[trigger] s1[k].node_id, id) by {
        assert(s1[k] == s[k]);
    }
    assert(s1[p].node_id == id);
    lemma_insert_pos_agrees(s1, id, p);
    assert(spec_upsert(s1, rec) == s1.update(p, refreshed_record(s1[p], rec)));
    assert(refreshed_record(s1[p], rec) == s1[p]);
    assert(s1.update(p, s1[p]) =~= s1);
}

/// Heartbeats for one node commute on the recorded timestamp: whichever
/// order two of them arrive in, the registry ends up with the greatest
/// value involved, and with the greater of the two carried timestamps
/// whenever both exceed what the registry held before.
pub proof fn lemma_heartbeat_order_immaterial(s: Seq<NodeRecord>, a: NodeRecord, b: NodeRecord)
    requires
        sorted_by_id(s),
        a.node_id == b.node_id,
    ensures
        record_of(spec_upsert(spec_upsert(s, a), b), a.node_id).last_heartbeat == record_of(
            spec_upsert(spec_upsert(s, b), a),
            a.node_id,
        ).last_heartbeat,
        !has_id(s, a.node_id) ==> record_of(
            spec_upsert(spec_upsert(s, a), b),
            a.node_id,
        ).last_heartbeat == if a.last_heartbeat >= b.last_heartbeat {
            a.last_heartbeat
        } else {
            b.last_heartbeat
        },
        has_id(s, a.node_id) && record_of(s, a.node_id).last_heartbeat < a.last_heartbeat
            && record_of(s, a.node_id).last_heartbeat < b.last_heartbeat ==> record_of(
            spec_upsert(spec_upsert(s, a), b),
            a.node_id,
        ).last_heartbeat == if a.last_heartbeat >= b.last_heartbeat {
            a.last_heartbeat
        } else {
            b.last_heartbeat
        },
{
    lemma_spec_upsert_effect(s, a);
    lemma_spec_upsert_sorted(s, a);
    lemma_spec_upsert_effect(spec_upsert(s, a), b);
    lemma_spec_upsert_effect(s, b);
    lemma_spec_upsert_sorted(s, b);
    lemma_spec_upsert_effect(spec_upsert(s, b), a);
}

/// Whether a record's heartbeat is older than the liveness deadline at
/// time `now`.
pub open spec fn stale(rec: NodeRecord, now: u64, deadline: u64) -> bool {
    (rec.last_heartbeat as int) + (deadline as int) < (now as int)
}

/// The records whose heartbeats are still within the liveness deadline,
/// in their original order.
pub open spec fn fresh_records(s: Seq<NodeRecord>, now: u64, deadline: u64) -> Seq<NodeRecord>
    decreases s.len(),
{
    if s.len() == 0 {
        s
    } else {
        let rest = fresh_records(s.drop_last(), now, deadline);
        if !stale(s.last(), now, deadline) {
            rest.push(s.last())
        } else {
            rest
        }
    }
}

/// Every surviving record is one of the original records, none of them is
/// stale, and there are no more of them than before.
pub proof fn lemma_fresh_records_elements(s: Seq<NodeRecord>, now: u64, deadline: u64)
    ensures
        fresh_records(s, now, deadline).len() <= s.len(),
        forall|k: int|
            0 <= k < fresh_records(s, now, deadline).len() ==> !stale(
                #[trigger] fresh_records(s, now, deadline)[k],
                now,
                deadline,
            ),
        forall|k: int|
            0 <= k < fresh_records(s, now, deadline).len() ==> exists|j: int|
                0 <= j < s.len() && s[j] == #[trigger] fresh_records(s, now, deadline)[k],
    decreases s.len(),
{
    if s.len() > 0 {
        lemma_fresh_records_elements(s.drop_last(), now, deadline);
        let f = fresh_records(s, now, deadline);
        let fd = fresh_records(s.drop_last(), now, deadline);
        assert forall|k: int| 0 <= k < f.len() implies exists|j: int|
            0 <= j < s.len() && s[j] == #[trigger] f[k] by {
            if !stale(s.last(), now, deadline) && k == f.len() - 1 {
                assert(s[s.len() - 1] == f[k]);
            } else {
                let j = choose|j: int| 0 <= j < s.drop_last().len() && s.drop_last()[j] == fd[k];
                assert(s[j] == f[k]);
            }
        }
    }
}

/// A sweep keeps the survivors sorted and their loads within capacity.
pub proof fn lemma_fresh_records_wf(s: Seq<NodeRecord>, now: u64, deadline: u64)
    requires
        sorted_by_id(s),
        loads_wf(s),
    ensures
        sorted_by_id(fresh_records(s, now, deadline)),
        loads_wf(fresh_records(s, now, deadline)),
    decreases s.len(),
{
    if s.len() > 0 {
        assert(sorted_by_id(s.drop_last()));
        assert(loads_wf(s.drop_last()));
        lemma_fresh_records_wf(s.drop_last(), now, deadline);
        lemma_fresh_records_elements(s.drop_last(), now, deadline);
        let f = fresh_records(s, now, deadline);
        let fd = fresh_records(s.drop_last(), now, deadline);
        assert forall|a: int, b: int| 0 <= a < b < f.len() implies lex_lt(
            #[trigger] f[a].node_id,
            #[trigger] f[b].node_id,
        ) by {
            if !stale(s.last(), now, deadline) && b == f.len() - 1 {
                let j = choose|j: int| 0 <= j < s.drop_last().len() && s.drop_last()[j] == fd[a];
                assert(s[j] == f[a]);
                assert(lex_lt(s[j].node_id, s[s.len() - 1].node_id));
            } else {
                assert(f[a] == fd[a]);
                assert(f[b] == fd[b]);
            }
        }
        assert forall|a: int| 0 <= a < f.len() implies (#[trigger] f[a]).current_load
            <= f[a].capacity by {
            if !stale(s.last(), now, deadline) && a == f.len() - 1 {
            } else {
                assert(f[a] == fd[a]);
            }
        }
    }
}

/// Which nodes survive a sweep: exactly those that are known and not
/// stale, each with its record untouched.
pub proof fn lemma_fresh_records_membership(
    s: Seq<NodeRecord>,
    now: u64,
    deadline: u64,
    id: Seq<char>,
)
    requires
        sorted_by_id(s),
    ensures
        has_id(fresh_records(s, now, deadline), id) <==> (has_id(s, id) && !stale(
            record_of(s, id),
            now,
            deadline,
        )),
        has_id(fresh_records(s, now, deadline), id) ==> record_of(
            fresh_records(s, now, deadline),
            id,
        ) == record_of(s, id),
    decreases s.len(),
{
    let f = fresh_records(s, now, deadline);
    lemma_fresh_records_elements(s, now, deadline);
    if has_id(f, id) {
        let k = index_of_id(f, id);
        assert(f[k].node_id == id);
        let j = choose|j: int| 0 <= j < s.len() && s[j] == f[k];
        lemma_index_unique(s, id, j);
        assert(record_of(s, id) == f[k]);
        assert(!stale(f[k], now, deadline));
        assert(record_of(f, id) == f[index_of_id(f, id)]);
    }
    if has_id(s, id) && !stale(record_of(s, id), now, deadline) {
        lemma_fresh_records_keeps(s, now, deadline, index_of_id(s, id));
        let k = choose|k: int| 0 <= k < f.len() && f[k] == s[index_of_id(s, id)];
        assert(f[k].node_id == id);
        assert(has_id(f, id));
    }
}

/// A record that is not stale survives the sweep.
proof fn lemma_fresh_records_keeps(s: Seq<NodeRecord>, now: u64, deadline: u64, j: int)
    requires
        0 <= j < s.len(),
        !stale(s[j], now, deadline),
    ensures
        exists|k: int|
            0 <= k < fresh_records(s, now, deadline).len() && fresh_records(s, now, deadline)[k]
                == s[j],
    decreases s.len(),
{
    let f = fresh_records(s, now, deadline);
    if j == s.len() - 1 {
        assert(f[f.len() - 1] == s[j]);
    } else {
        lemma_fresh_records_keeps(s.drop_last(), now, deadline, j);
        let fd = fresh_records(s.drop_last(), now, deadline);
        let k = choose|k: int| 0 <= k < fd.len() && fd[k] == s.drop_last()[j];
        assert(f[k] == s[j]);
    }
}

/// Replacing one record by another with the same id leaves membership,
/// and every other node's record, untouched.
pub proof fn lemma_update_same_id_membership(s: Seq<NodeRecord>, i: int, r2: NodeRecord)
    requires
        0 <= i < s.len(),
        r2.node_id == s[i].node_id,
    ensures
        forall|id: Seq<char>| #[trigger] has_id(s.update(i, r2), id) == has_id(s, id),
{
    let s1 = s.update(i, r2);
    assert forall|id: Seq<char>| #[trigger] has_id(s1, id) == has_id(s, id) by {
        if has_id(s, id) {
            let j = choose|j: int| 0 <= j < s.len() && (#[trigger] s[j]).node_id == id;
            if j == i {
                assert(s1[i].node_id == id);
            } else {
                assert(s1[j].node_id == id);
            }
            assert(has_id(s1, id));
        }
        if has_id(s1, id) {
            let j = choose|j: int| 0 <= j < s1.len() && (#[trigger] s1[j]).node_id == id;
            if j == i {
                assert(s[i].node_id == id);
            } else {
                assert(s[j].node_id == id);
            }
            assert(has_id(s, id));
        }
    }
}

/// The authoritative, mutable view of cluster membership and load.
pub struct Registry {
    nodes: Vec<NodeInfo>,
}

impl View for Registry {
    type V = Seq<NodeRecord>;

    closed spec fn view(&self) -> Seq<NodeRecord> {
        self.nodes.deep_view()
    }
}

impl Registry {
    /// Records sorted and unique by id, every load within capacity.
    pub open spec fn wf(&self) -> bool {
        sorted_by_id(self@) && loads_wf(self@)
    }

    /// An empty registry.
    pub fn new() -> (r: Registry)
        ensures
            r.wf(),
            r@.len() == 0,
    {
        Registry { nodes: Vec::new() }
    }

    /// The position of the record carrying `node_id`, if any.
    fn find_index(&self, node_id: &str) -> (r: Option<usize>)
        ensures
            match r {
                Some(i) => i < self@.len() && self@[i as int].node_id == node_id@,
                None => !has_id(self@, node_id@),
            },
    {
        let mut i: usize = 0;
        while i < self.nodes.len()
            invariant
                i <= self@.len(),
                self@.len() == self.nodes@.len(),
                forall|k: int| 0 <= k < i ==> (#[trigger] self@[k]).node_id != node_id@,
            decreases self@.len() - i,
        {
            if str_eq(self.nodes[i].node_id.as_str(), node_id) {
                return Some(i);
            }
            i = i + 1;
        }
        None
    }

    /// A copy of the record for `node_id`, if the node is known.
    pub fn get(&self, node_id: &str) -> (r: Option<NodeInfo>)
        requires
            self.wf(),
        ensures
            match r {
                Some(n) => has_id(self@, node_id@) && n@ == record_of(self@, node_id@),
                None => !has_id(self@, node_id@),
            },
    {
        match self.find_index(node_id) {
            Some(i) => {
                proof {
                    lemma_index_unique(self@, node_id@, i as int);
                }
                Some(self.nodes[i].clone())
            },
            None => None,
        }
    }

    /// A copy of every record, in ascending node-id order.
    pub fn snapshot(&self) -> (r: Vec<NodeInfo>)
        ensures
            r.deep_view() == self@,
    {
        let mut r: Vec<NodeInfo> = Vec::new();
        let mut i: usize = 0;
        while i < self.nodes.len()
            invariant
                i <= self.nodes@.len(),
                r@.len() == i,
                forall|k: int| 0 <= k < i ==> (#[trigger] r@[k])@ == self.nodes@[k]@,
            decreases self.nodes@.len() - i,
        {
            r.push(self.nodes[i].clone());
            i = i + 1;
        }
        proof {
            assert forall|k: int| 0 <= k < r.deep_view().len() implies r.deep_view()[k]
                == self@[k] by {
                assert(r.deep_view()[k] == r@[k]@);
                assert(self@[k] == self.nodes@[k]@);
            }
            assert(r.deep_view() =~= self@);
        }
        r
    }

    /// Inserts or refreshes the record for `record.node_id`.  A refresh
    /// preserves the load and capacity the registry is already tracking
    /// and never lowers the recorded heartbeat timestamp; a node observed
    /// for the first time starts with no tracked load.
    pub fn upsert(&mut self, record: NodeInfo)
        requires
            old(self).wf(),
        ensures
            final(self).wf(),
            final(self)@ == spec_upsert(old(self)@, record@),
    {
        let ghost s0 = self@;
        let ghost rid = record@.node_id;
        let mut p: usize = 0;
        loop
            invariant_except_break
                self@ == s0,
                rid == record@.node_id,
                p <= self@.len(),
                self@.len() == self.nodes@.len(),
                forall|k: int| 0 <= k < p ==> lex_lt((#[trigger] self@[k]).node_id, rid),
            ensures
                self@ == s0,
                rid == record@.node_id,
                p <= self@.len(),
                self@.len() == self.nodes@.len(),
                forall|k: int| 0 <= k < p ==> lex_lt((#[trigger] self@[k]).node_id, rid),
                p < self@.len() ==> !lex_lt(self@[p as int].node_id, rid),
            decreases self@.len() - p,
        {
            if p == self.nodes.len() {
                break;
            }
            let go = str_lt(self.nodes[p].node_id.as_str(), record.node_id.as_str());
            proof {
                assert(self@[p as int] == self.nodes@[p as int]@);
                assert(go == lex_lt(self@[p as int].node_id, rid));
            }
            if !go {
                break;
            }
            p = p + 1;
        }
        proof {
            lemma_insert_pos_agrees(s0, rid, p as int);
        }
        if p < self.nodes.len() && str_eq(self.nodes[p].node_id.as_str(), record.node_id.as_str()) {
            // Refresh in place: same id, tracked load and capacity kept.
            let mut existing = self.nodes.remove(p);
            existing.node_type = record.node_type;
            existing.status = record.status;
            if record.last_heartbeat > existing.last_heartbeat {
                existing.last_heartbeat = record.last_heartbeat;
            }
            existing.version = record.version;
            existing.metadata = record.metadata;
            self.nodes.insert(p, existing);
            proof {
                assert forall|k: int| 0 <= k < self@.len() implies self@[k] == s0.update(
                    p as int,
                    refreshed_record(s0[p as int], record@),
                )[k] by {
                    assert(self@[k] == self.nodes@[k]@);
                }
                assert(self@ =~= s0.update(p as int, refreshed_record(s0[p as int], record@)));
                assert(self@ == spec_upsert(s0, record@));
                assert forall|i: int, j: int| 0 <= i < j < self@.len() implies lex_lt(
                    #[trigger] self@[i].node_id,
                    #[trigger] self@[j].node_id,
                ) by {
                    assert(self@[i].node_id == s0[i].node_id);
                    assert(self@[j].node_id == s0[j].node_id);
                }
            }
        } else {
            // First observation of this node.
            proof {
                if (p as int) < s0.len() {
                    assert(self@[p as int] == self.nodes@[p as int]@);
                    assert(s0[p as int].node_id != rid);
                    if !lex_lt(rid, s0[p as int].node_id) {
                        lemma_lex_lt_connected(s0[p as int].node_id, rid);
                    }
                    assert(lex_lt(rid, s0[p as int].node_id));
                }
            }
            let fresh = NodeInfo {
                node_id: record.node_id,
                node_type: record.node_type,
                last_heartbeat: record.last_heartbeat,
                status: record.status,
                capacity: record.capacity,
                current_load: 0,
                version: record.version,
                metadata: record.metadata,
            };
            self.nodes.insert(p, fresh);
            proof {
                assert forall|k: int| 0 <= k < self@.len() implies self@[k] == s0.insert(
                    p as int,
                    fresh_record(record@),
                )[k] by {
                    assert(self@[k] == self.nodes@[k]@);
                }
                assert(self@ =~= s0.insert(p as int, fresh_record(record@)));
                assert(self@ == spec_upsert(s0, record@));
                assert forall|i: int, j: int| 0 <= i < j < self@.len() implies lex_lt(
                    #[trigger] self@[i].node_id,
                    #[trigger] self@[j].node_id,
                ) by {
                    let pi = p as int;
                    if i < pi && j == pi {
                        assert(self@[i].node_id == s0[i].node_id);
                    } else if i == pi && j > pi {
                        assert(self@[j].node_id == s0[j - 1].node_id);
                        if j - 1 > pi - 1 + 1 {
                        }
                        if pi < s0.len() {
                            if j - 1 == pi {
                            } else {
                                lemma_lex_lt_transitive(rid, s0[pi].node_id, s0[j - 1].node_id);
                            }
                        }
                    } else if i < pi && j > pi {
                        assert(self@[i].node_id == s0[i].node_id);
                        assert(self@[j].node_id == s0[j - 1].node_id);
                    } else if i > pi && j > pi {
                        assert(self@[i].node_id == s0[i - 1].node_id);
                        assert(self@[j].node_id == s0[j - 1].node_id);
                    } else {
                        assert(self@[i].node_id == s0[i].node_id);
                        assert(self@[j].node_id == s0[j].node_id);
                    }
                }
            }
        }
    }

    /// Removes the record for `node_id`, if the node is known.
    pub fn remove(&mut self, node_id: &str)
        requires
            old(self).wf(),
        ensures
            final(self).wf(),
            final(self)@ == spec_remove(old(self)@, node_id@),
    {
        let ghost s0 = self@;
        match self.find_index(node_id) {
            Some(i) => {
                proof {
                    lemma_index_unique(s0, node_id@, i as int);
                }
                self.nodes.remove(i);
                proof {
                    assert forall|k: int| 0 <= k < self@.len() implies self@[k] == s0.remove(
                        i as int,
                    )[k] by {
                        assert(self@[k] == self.nodes@[k]@);
                    }
                    assert(self@ =~= s0.remove(i as int));
                    assert forall|a: int, b: int| 0 <= a < b < self@.len() implies lex_lt(
                        #[trigger] self@[a].node_id,
                        #[trigger] self@[b].node_id,
                    ) by {
                        let ii = i as int;
                        let a0 = if a < ii { a } else { a + 1 };
                        let b0 = if b < ii { b } else { b + 1 };
                        assert(self@[a] == s0[a0]);
                        assert(self@[b] == s0[b0]);
                    }
                }
            },
            None => {},
        }
    }

    /// Changes the tracked load of `node_id` by `delta`, failing if the
    /// node is unknown or if the result would leave `0..=capacity`.
    pub fn adjust_load(&mut self, node_id: &str, delta: i32) -> (r: Result<u32, RegistryError>)
        requires
            old(self).wf(),
        ensures
            final(self).wf(),
            !has_id(old(self)@, node_id@) ==> r == Err::<u32, RegistryError>(
                RegistryError::UnknownNode,
            ) && final(self)@ == old(self)@,
            has_id(old(self)@, node_id@) ==> {
                let idx = index_of_id(old(self)@, node_id@);
                let rec = old(self)@[idx];
                let adjusted = rec.current_load as int + delta as int;
                if 0 <= adjusted <= rec.capacity as int {
                    &&& r == Ok::<u32, RegistryError>(adjusted as u32)
                    &&& final(self)@ == old(self)@.update(idx, with_load(rec, adjusted as u32))
                } else {
                    &&& r == Err::<u32, RegistryError>(RegistryError::CapacityExceeded)
                    &&& final(self)@ == old(self)@
                }
            },
    {
        let ghost s0 = self@;
        match self.find_index(node_id) {
            Some(i) => {
                proof {
                    lemma_index_unique(s0, node_id@, i as int);
                }
                let cur = self.nodes[i].current_load;
                let cap = self.nodes[i].capacity;
                proof {
                    assert(self@[i as int] == self.nodes@[i as int]@);
                }
                let adjusted: i64 = cur as i64 + delta as i64;
                if adjusted < 0 || adjusted > cap as i64 {
                    Err(RegistryError::CapacityExceeded)
                } else {
                    let mut n = self.nodes.remove(i);
                    n.current_load = adjusted as u32;
                    self.nodes.insert(i, n);
                    proof {
                        let idx = i as int;
                        let target = s0.update(idx, with_load(s0[idx], adjusted as u32));
                        assert forall|k: int| 0 <= k < self@.len() implies self@[k]
                            == target[k] by {
                            assert(self@[k] == self.nodes@[k]@);
                        }
                        assert(self@ =~= target);
                        assert forall|a: int, b: int| 0 <= a < b < self@.len() implies lex_lt(
                            #[trigger] self@[a].node_id,
                            #[trigger] self@[b].node_id,
                        ) by {
                            assert(self@[a].node_id == s0[a].node_id);
                            assert(self@[b].node_id == s0[b].node_id);
                        }
                    }
                    Ok(adjusted as u32)
                }
            },
            None => Err(RegistryError::UnknownNode),
        }
    }

    /// Removes every record whose heartbeat is older than the liveness
    /// deadline at time `now`, keeping the rest in order.
    pub fn remove_stale(&mut self, now: u64, deadline: u64)
        requires
            old(self).wf(),
        ensures
            final(self).wf(),
            final(self)@ == fresh_records(old(self)@, now, deadline),
            forall|i: int|
                0 <= i < final(self)@.len() ==> !stale(final(self)@[i], now, deadline),
    {
        let ghost s0 = self@;
        let mut kept: Vec<NodeInfo> = Vec::new();
        let mut i: usize = 0;
        while i < self.nodes.len()
            invariant
                i <= self.nodes@.len(),
                s0 == self@,
                self@.len() == self.nodes@.len(),
                kept.deep_view() == fresh_records(s0.subrange(0, i as int), now, deadline),
            decreases self.nodes@.len() - i,
        {
            proof {
                assert(self@[i as int] == self.nodes@[i as int]@);
            }
            let node = &self.nodes[i];
            let live: bool = node.last_heartbeat as u128 + deadline as u128 >= now as u128;
            let ghost pre = kept.deep_view();
            let ghost pre_raw = kept@;
            if live {
                kept.push(node.clone());
                proof {
                    assert forall|k: int| 0 <= k < kept.deep_view().len() implies kept.deep_view()[k]
                        == (if k < pre.len() {
                        pre[k]
                    } else {
                        s0[i as int]
                    }) by {
                        assert(kept.deep_view()[k] == kept@[k]@);
                        if k < pre.len() {
                            assert(kept@[k] == pre_raw[k]);
                            assert(pre[k] == pre_raw[k]@);
                        }
                    }
                    assert(kept.deep_view() =~= pre.push(s0[i as int]));
                }
            }
            proof {
                let sub1 = s0.subrange(0, i as int + 1);
                assert(sub1.drop_last() =~= s0.subrange(0, i as int));
                assert(sub1.last() == s0[i as int]);
                assert(kept.deep_view() =~= fresh_records(sub1, now, deadline));
            }
            i = i + 1;
        }
        proof {
            assert(s0.subrange(0, s0.len() as int) =~= s0);
        }
        self.nodes = kept;
        proof {
            lemma_fresh_records_wf(s0, now, deadline);
            lemma_fresh_records_elements(s0, now, deadline);
        }
    }
}

} // verus!
