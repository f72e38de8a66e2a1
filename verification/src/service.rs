//! The orchestration service: the registry, the routing table, and the
//! health monitor's sweep, behind one state object.
//!
//! The service ingests heartbeats, answers placement requests by
//! selecting the least-loaded eligible worker, records each acceptance in
//! the routing table, releases assignments, and periodically sweeps out
//! nodes whose heartbeats have gone stale — cascading the removal into
//! the routing table and producing one rejection notice per orphaned
//! requester, so it can ask for placement again.
//!
//! Its standing well-formedness ties the two structures together: every
//! routing-table entry points at a node that exists in the registry.

use vstd::prelude::*;
use vstd::string::*;

use crate::common::{
    NodeInfo, NodeRecord, PlacementResponse, RoutingRequest, RoutingResponse, RoutingStatus,
};
use crate::registry::{
    fresh_records, has_id, index_of_id, lemma_index_unique, lemma_spec_upsert_effect,
    lemma_update_same_id_membership, loads_wf, record_of, sorted_by_id, spec_upsert, stale,
    with_load, Registry, RegistryError,
};
use crate::routing::{
    build_assignment_configuration, eligible, lemma_select_characterization,
    select_worker, spec_assignment_config, spec_select,
};
use crate::text::str_eq;

verus! {

/// No two routing-table entries answer for the same requester.
pub open spec fn table_ids_unique(t: Seq<(Seq<char>, Seq<char>)>) -> bool {
    forall|i: int, j: int| 0 <= i < j < t.len() ==> (#[trigger] t[i]).0 != (#[trigger] t[j]).0
}

/// Every routing-table entry points at a node the registry knows.
pub open spec fn table_targets_known(t: Seq<(Seq<char>, Seq<char>)>, reg: Seq<NodeRecord>) -> bool {
    forall|i: int| 0 <= i < t.len() ==> has_id(reg, (#[trigger] t[i]).1)
}

/// Whether the table holds an entry for the requester.
pub open spec fn table_has(t: Seq<(Seq<char>, Seq<char>)>, requester: Seq<char>) -> bool {
    exists|i: int| 0 <= i < t.len() && (#[trigger] t[i]).0 == requester
}

/// The index of the requester's entry.
pub open spec fn table_index_of(t: Seq<(Seq<char>, Seq<char>)>, requester: Seq<char>) -> int {
    choose|i: int| 0 <= i < t.len() && (#[trigger] t[i]).0 == requester
}

/// The worker the requester is assigned to.
pub open spec fn table_target(t: Seq<(Seq<char>, Seq<char>)>, requester: Seq<char>) -> Seq<char> {
    t[table_index_of(t, requester)].1
}

/// In a table with unique requester ids, a requester determines its
/// entry.
pub proof fn lemma_table_index_unique(t: Seq<(Seq<char>, Seq<char>)>, requester: Seq<char>, i: int)
    requires
        table_ids_unique(t),
        0 <= i < t.len(),
        t[i].0 == requester,
    ensures
        table_has(t, requester),
        table_index_of(t, requester) == i,
        table_target(t, requester) == t[i].1,
{
    assert(table_has(t, requester));
}

/// The table after one assignment is recorded: a requester's existing
/// entry is redirected, otherwise a new entry is appended.
pub open spec fn spec_table_upsert(
    t: Seq<(Seq<char>, Seq<char>)>,
    requester: Seq<char>,
    worker: Seq<char>,
) -> Seq<(Seq<char>, Seq<char>)> {
    if table_has(t, requester) {
        t.update(table_index_of(t, requester), (requester, worker))
    } else {
        t.push((requester, worker))
    }
}

/// The entries whose target node the registry still knows, in order.
pub open spec fn surviving_entries(
    t: Seq<(Seq<char>, Seq<char>)>,
    reg: Seq<NodeRecord>,
) -> Seq<(Seq<char>, Seq<char>)>
    decreases t.len(),
{
    if t.len() == 0 {
        t
    } else {
        let rest = surviving_entries(t.drop_last(), reg);
        if has_id(reg, t.last().1) {
            rest.push(t.last())
        } else {
            rest
        }
    }
}

/// The requesters whose entries point at nodes the registry no longer
/// knows, in table order.
pub open spec fn dropped_requesters(
    t: Seq<(Seq<char>, Seq<char>)>,
    reg: Seq<NodeRecord>,
) -> Seq<Seq<char>>
    decreases t.len(),
{
    if t.len() == 0 {
        Seq::empty()
    } else {
        let rest = dropped_requesters(t.drop_last(), reg);
        if has_id(reg, t.last().1) {
            rest
        } else {
            rest.push(t.last().0)
        }
    }
}

/// The response that accepts a requester onto a worker.
pub open spec fn accepted_response(
    worker: Seq<char>,
    requester: Seq<char>,
    now: u64,
) -> PlacementResponse {
    PlacementResponse {
        node_id: worker,
        client_id: requester,
        status: RoutingStatus::Accepted,
        rejection_reason: None,
        configuration: Some(spec_assignment_config(worker, requester, 30000)),
        timestamp: now,
    }
}

/// The response that rejects a request because no worker qualifies.
pub open spec fn no_workers_response(requester: Seq<char>, now: u64) -> PlacementResponse {
    PlacementResponse {
        node_id: "none"@,
        client_id: requester,
        status: RoutingStatus::Rejected,
        rejection_reason: Some("no available workers"@),
        configuration: None,
        timestamp: now,
    }
}

/// The notice sent to a requester whose assigned worker went silent.
pub open spec fn unreachable_notice(requester: Seq<char>, now: u64) -> PlacementResponse {
    PlacementResponse {
        node_id: "none"@,
        client_id: requester,
        status: RoutingStatus::Rejected,
        rejection_reason: Some("assigned worker became unreachable"@),
        configuration: None,
        timestamp: now,
    }
}

/// One unreachable-worker notice per dropped requester, in order.
pub open spec fn notices_for(requesters: Seq<Seq<char>>, now: u64) -> Seq<PlacementResponse>
    decreases requesters.len(),
{
    if requesters.len() == 0 {
        Seq::empty()
    } else {
        notices_for(requesters.drop_last(), now).push(unreachable_notice(requesters.last(), now))
    }
}

/// Sweeping the table keeps requester ids unique and leaves only entries
/// whose target the registry knows.
proof fn lemma_surviving_entries_wf(t: Seq<(Seq<char>, Seq<char>)>, reg: Seq<NodeRecord>)
    requires
        table_ids_unique(t),
    ensures
        table_ids_unique(surviving_entries(t, reg)),
        table_targets_known(surviving_entries(t, reg), reg),
        surviving_entries(t, reg).len() <= t.len(),
        forall|k: int|
            0 <= k < surviving_entries(t, reg).len() ==> exists|j: int|
                0 <= j < t.len() && t[j] == #[trigger] surviving_entries(t, reg)[k],
    decreases t.len(),
{
    if t.len() > 0 {
        assert(table_ids_unique(t.drop_last()));
        lemma_surviving_entries_wf(t.drop_last(), reg);
        let f = surviving_entries(t, reg);
        let fd = surviving_entries(t.drop_last(), reg);
        assert forall|k: int| 0 <= k < f.len() implies exists|j: int|
            0 <= j < t.len() && t[j] == #[trigger] f[k] by {
            if has_id(reg, t.last().1) && k == f.len() - 1 {
                assert(t[t.len() - 1] == f[k]);
            } else {
                let j = choose|j: int| 0 <= j < t.drop_last().len() && t.drop_last()[j] == fd[k];
                assert(t[j] == f[k]);
            }
        }
        assert forall|a: int, b: int| 0 <= a < b < f.len() implies (#[trigger] f[a]).0 != (
        #[trigger] f[b]).0 by {
            if has_id(reg, t.last().1) && b == f.len() - 1 {
                let j = choose|j: int| 0 <= j < t.drop_last().len() && t.drop_last()[j] == fd[a];
                assert(t[j] == f[a]);
                assert(t[j].0 != t[t.len() - 1].0);
            } else {
                assert(f[a] == fd[a]);
                assert(f[b] == fd[b]);
            }
        }
    }
}

/// The routing-table invariant: in a well-formed service every entry's
/// target node exists in the registry.  Freshness is restored by each
/// sweep: `cleanup_inactive_nodes` further guarantees that no remaining
/// target is stale.
pub proof fn lemma_routing_targets_exist(s: &OrchestrationService)
    requires
        s.wf(),
    ensures
        forall|k: int|
            0 <= k < s.table().len() ==> has_id(s.reg(), (#[trigger] s.table()[k]).1),
{
}

/// The registry + admission-control + routing + health-monitoring
/// engine: the coordinator's whole mutable state.
pub struct OrchestrationService {
    registry: Registry,
    routing_table: Vec<(String, String)>,
}

impl OrchestrationService {
    /// The registry contents.
    pub closed spec fn reg(&self) -> Seq<NodeRecord> {
        self.registry@
    }

    /// The routing table contents: `(requester_id, worker_id)` pairs.
    pub closed spec fn table(&self) -> Seq<(Seq<char>, Seq<char>)> {
        self.routing_table.deep_view()
    }

    /// Registry sorted with loads within capacity, requester ids unique,
    /// and every routing-table target known to the registry.
    pub open spec fn wf(&self) -> bool {
        &&& sorted_by_id(self.reg())
        &&& loads_wf(self.reg())
        &&& table_ids_unique(self.table())
        &&& table_targets_known(self.table(), self.reg())
    }

    /// A service with no known nodes and no assignments.
    pub fn new() -> (s: OrchestrationService)
        ensures
            s.wf(),
            s.reg().len() == 0,
            s.table().len() == 0,
    {
        OrchestrationService { registry: Registry::new(), routing_table: Vec::new() }
    }

    /// Ingests one heartbeat: inserts or refreshes the sender's record,
    /// and touches nothing else.
    pub fn upsert_heartbeat(&mut self, record: NodeInfo)
        requires
            old(self).wf(),
        ensures
            final(self).wf(),
            final(self).reg() == spec_upsert(old(self).reg(), record@),
            final(self).table() == old(self).table(),
    {
        proof {
            lemma_spec_upsert_effect(self.reg(), record@);
        }
        self.registry.upsert(record);
    }

    /// A copy of the record for `node_id`, if the node is known.
    pub fn get_node(&self, node_id: &str) -> (r: Option<NodeInfo>)
        requires
            self.wf(),
        ensures
            match r {
                Some(n) => has_id(self.reg(), node_id@) && n@ == record_of(self.reg(), node_id@),
                None => !has_id(self.reg(), node_id@),
            },
    {
        self.registry.get(node_id)
    }

    /// A copy of every known record, in ascending node-id order.
    pub fn registry_snapshot(&self) -> (r: Vec<NodeInfo>)
        ensures
            r.deep_view() == self.reg(),
    {
        self.registry.snapshot()
    }

    /// A copy of every routing-table entry, in table order.
    pub fn routing_entries(&self) -> (r: Vec<(String, String)>)
        ensures
            r.deep_view() == self.table(),
    {
        let mut r: Vec<(String, String)> = Vec::new();
        let mut i: usize = 0;
        while i < self.routing_table.len()
            invariant
                i <= self.routing_table@.len(),
                r@.len() == i,
                forall|k: int|
                    0 <= k < i ==> (#[trigger] r@[k]).0@ == self.routing_table@[k].0@ && r@[k].1@
                        == self.routing_table@[k].1@,
            decreases self.routing_table@.len() - i,
        {
            let entry = (self.routing_table[i].0.clone(), self.routing_table[i].1.clone());
            r.push(entry);
            i = i + 1;
        }
        proof {
            assert forall|k: int| 0 <= k < r.deep_view().len() implies r.deep_view()[k]
                == self.table()[k] by {
                assert(r.deep_view()[k] == r@[k].deep_view());
                assert(self.table()[k] == self.routing_table@[k].deep_view());
            }
            assert(r.deep_view() =~= self.table());
        }
        r
    }

    /// Changes the tracked load of `node_id` by `delta`, failing if the
    /// node is unknown or if the result would leave `0..=capacity`.
    pub fn adjust_load(&mut self, node_id: &str, delta: i32) -> (r: Result<u32, RegistryError>)
        requires
            old(self).wf(),
        ensures
            final(self).wf(),
            final(self).table() == old(self).table(),
            !has_id(old(self).reg(), node_id@) ==> r == Err::<u32, RegistryError>(
                RegistryError::UnknownNode,
            ) && final(self).reg() == old(self).reg(),
            has_id(old(self).reg(), node_id@) ==> {
                let idx = index_of_id(old(self).reg(), node_id@);
                let rec = old(self).reg()[idx];
                let adjusted = rec.current_load as int + delta as int;
                if 0 <= adjusted <= rec.capacity as int {
                    &&& r == Ok::<u32, RegistryError>(adjusted as u32)
                    &&& final(self).reg() == old(self).reg().update(
                        idx,
                        with_load(rec, adjusted as u32),
                    )
                } else {
                    &&& r == Err::<u32, RegistryError>(RegistryError::CapacityExceeded)
                    &&& final(self).reg() == old(self).reg()
                }
            },
    {
        let ghost reg0 = self.reg();
        let r = self.registry.adjust_load(node_id, delta);
        proof {
            if has_id(reg0, node_id@) {
                let idx = index_of_id(reg0, node_id@);
                if self.reg() != reg0 {
                    lemma_update_same_id_membership(
                        reg0,
                        idx,
                        with_load(reg0[idx], self.reg()[idx].current_load),
                    );
                }
            }
        }
        r
    }

    /// Records or redirects the requester's assignment.
    fn table_upsert_entry(&mut self, requester_id: String, worker_id: String)
        requires
            table_ids_unique(old(self).table()),
        ensures
            final(self).reg() == old(self).reg(),
            final(self).table() == spec_table_upsert(
                old(self).table(),
                requester_id@,
                worker_id@,
            ),
            table_ids_unique(final(self).table()),
    {
        let ghost t0 = self.table();
        let mut i: usize = 0;
        loop
            invariant_except_break
                self == old(self),
                t0 == self.table(),
                i <= self.routing_table@.len(),
                self.table().len() == self.routing_table@.len(),
                forall|k: int| 0 <= k < i ==> (#[trigger] t0[k]).0 != requester_id@,
            ensures
                t0 == self.table(),
                self == old(self),
                self.table().len() == self.routing_table@.len(),
                i <= self.routing_table@.len(),
                forall|k: int| 0 <= k < i ==> (#[trigger] t0[k]).0 != requester_id@,
                i < self.routing_table@.len() ==> t0[i as int].0 == requester_id@,
            decreases self.routing_table@.len() - i,
        {
            if i == self.routing_table.len() {
                break;
            }
            proof {
                assert(t0[i as int] == self.routing_table@[i as int].deep_view());
            }
            if str_eq(self.routing_table[i].0.as_str(), requester_id.as_str()) {
                break;
            }
            i = i + 1;
        }
        if i < self.routing_table.len() {
            proof {
                lemma_table_index_unique(t0, requester_id@, i as int);
            }
            self.routing_table.remove(i);
            self.routing_table.insert(i, (requester_id, worker_id));
            proof {
                let target = t0.update(i as int, (requester_id@, worker_id@));
                assert forall|k: int| 0 <= k < self.table().len() implies self.table()[k]
                    == target[k] by {
                    assert(self.table()[k] == self.routing_table@[k].deep_view());
                }
                assert(self.table() =~= target);
                assert forall|a: int, b: int| 0 <= a < b < self.table().len() implies (
                #[trigger] self.table()[a]).0 != (#[trigger] self.table()[b]).0 by {
                    assert(t0[a].0 == self.table()[a].0 || a == i as int);
                    assert(t0[b].0 == self.table()[b].0 || b == i as int);
                }
            }
        } else {
            self.routing_table.push((requester_id, worker_id));
            proof {
                let target = t0.push((requester_id@, worker_id@));
                assert forall|k: int| 0 <= k < self.table().len() implies self.table()[k]
                    == target[k] by {
                    assert(self.table()[k] == self.routing_table@[k].deep_view());
                }
                assert(self.table() =~= target);
                assert(!table_has(t0, requester_id@));
                assert forall|a: int, b: int| 0 <= a < b < self.table().len() implies (
                #[trigger] self.table()[a]).0 != (#[trigger] self.table()[b]).0 by {
                    if b == self.table().len() - 1 {
                        assert(self.table()[a].0 == t0[a].0);
                    } else {
                        assert(self.table()[a].0 == t0[a].0);
                        assert(self.table()[b].0 == t0[b].0);
                    }
                }
            }
        }
    }

    /// Answers one placement request.  When an eligible worker exists the
    /// least-loaded one (smallest node id on a tie) is chosen, its load
    /// is incremented, the assignment is recorded, and the response
    /// carries the pair-scoped configuration; otherwise nothing changes
    /// and the response is a rejection naming its reason.
    pub fn handle_routing_request(&mut self, request: &RoutingRequest, now: u64) -> (resp:
        RoutingResponse)
        requires
            old(self).wf(),
        ensures
            final(self).wf(),
            (match spec_select(old(self).reg(), request@) {
                Some(i) => {
                    let w = old(self).reg()[i];
                    &&& resp@ == accepted_response(w.node_id, request@.client_id, now)
                    &&& final(self).reg() == old(self).reg().update(
                        i,
                        with_load(w, (w.current_load + 1) as u32),
                    )
                    &&& final(self).table() == spec_table_upsert(
                        old(self).table(),
                        request@.client_id,
                        w.node_id,
                    )
                },
                None => {
                    &&& resp@ == no_workers_response(request@.client_id, now)
                    &&& final(self).reg() == old(self).reg()
                    &&& final(self).table() == old(self).table()
                },
            }),
    {
        let ghost reg0 = self.reg();
        let ghost t0 = self.table();
        let snap = self.registry.snapshot();
        match select_worker(&snap, request) {
            Some(i) => {
                proof {
                    lemma_select_characterization(reg0, request@);
                    assert(snap@[i as int]@ == reg0[i as int]);
                }
                let worker_id = snap[i].node_id.clone();
                proof {
                    assert(worker_id@ == reg0[i as int].node_id);
                    lemma_index_unique(reg0, worker_id@, i as int);
                    assert(eligible(reg0[i as int], request@));
                }
                let adj = self.registry.adjust_load(worker_id.as_str(), 1);
                match adj {
                    Ok(_) => {},
                    Err(_) => {
                        proof {
                            assert(false);
                        }
                    },
                }
                self.table_upsert_entry(request.client_id.clone(), worker_id.clone());
                let config = build_assignment_configuration(
                    worker_id.as_str(),
                    request.client_id.as_str(),
                    30000,
                );
                let resp = RoutingResponse {
                    node_id: worker_id,
                    client_id: request.client_id.clone(),
                    status: RoutingStatus::Accepted,
                    rejection_reason: None,
                    configuration: Some(config),
                    timestamp: now,
                };
                proof {
                    let w = reg0[i as int];
                    assert(resp@ =~= accepted_response(w.node_id, request@.client_id, now));
                    lemma_update_same_id_membership(
                        reg0,
                        i as int,
                        with_load(w, (w.current_load + 1) as u32),
                    );
                    assert forall|k: int| 0 <= k < self.table().len() implies has_id(
                        self.reg(),
                        (#[trigger] self.table()[k]).1,
                    ) by {
                        if table_has(t0, request@.client_id) {
                            let idx = table_index_of(t0, request@.client_id);
                            if k != idx {
                                assert(self.table()[k] == t0[k]);
                            }
                        } else {
                            if k < t0.len() {
                                assert(self.table()[k] == t0[k]);
                            }
                        }
                    }
                }
                resp
            },
            None => {
                let resp = RoutingResponse {
                    node_id: String::from_str("none"),
                    client_id: request.client_id.clone(),
                    status: RoutingStatus::Rejected,
                    rejection_reason: Some(String::from_str("no available workers")),
                    configuration: None,
                    timestamp: now,
                };
                proof {
                    assert(resp@ =~= no_workers_response(request@.client_id, now));
                }
                resp
            },
        }
    }

    /// The worker currently assigned to `requester_id`, if any.
    pub fn assigned_worker(&self, requester_id: &str) -> (r: Option<String>)
        requires
            self.wf(),
        ensures
            match r {
                Some(w) => table_has(self.table(), requester_id@) && w@ == table_target(
                    self.table(),
                    requester_id@,
                ),
                None => !table_has(self.table(), requester_id@),
            },
    {
        let mut i: usize = 0;
        while i < self.routing_table.len()
            invariant
                i <= self.routing_table@.len(),
                self.table().len() == self.routing_table@.len(),
                table_ids_unique(self.table()),
                forall|k: int| 0 <= k < i ==> (#[trigger] self.table()[k]).0 != requester_id@,
            decreases self.routing_table@.len() - i,
        {
            proof {
                assert(self.table()[i as int] == self.routing_table@[i as int].deep_view());
            }
            if str_eq(self.routing_table[i].0.as_str(), requester_id) {
                proof {
                    lemma_table_index_unique(self.table(), requester_id@, i as int);
                }
                return Some(self.routing_table[i].1.clone());
            }
            i = i + 1;
        }
        None
    }

    /// Releases the requester's assignment: the routing-table entry is
    /// removed and the assigned worker gives back one unit of load.  The
    /// required counterpart of acceptance — without it the accepted load
    /// would be leaked forever.
    pub fn release_assignment(&mut self, requester_id: &str) -> (r: Result<u32, RegistryError>)
        requires
            old(self).wf(),
        ensures
            final(self).wf(),
            !table_has(old(self).table(), requester_id@) ==> r == Err::<u32, RegistryError>(
                RegistryError::UnknownNode,
            ) && final(self).reg() == old(self).reg() && final(self).table() == old(self).table(),
            table_has(old(self).table(), requester_id@) ==> {
                let idx = table_index_of(old(self).table(), requester_id@);
                let w = old(self).table()[idx].1;
                let rec = record_of(old(self).reg(), w);
                &&& final(self).table() == old(self).table().remove(idx)
                &&& if rec.current_load >= 1 {
                    &&& r == Ok::<u32, RegistryError>((rec.current_load - 1) as u32)
                    &&& final(self).reg() == old(self).reg().update(
                        index_of_id(old(self).reg(), w),
                        with_load(rec, (rec.current_load - 1) as u32),
                    )
                } else {
                    &&& r == Err::<u32, RegistryError>(RegistryError::CapacityExceeded)
                    &&& final(self).reg() == old(self).reg()
                }
            },
    {
        let ghost t0 = self.table();
        let ghost reg0 = self.reg();
        let mut i: usize = 0;
        loop
            invariant_except_break
                self == old(self),
                t0 == self.table(),
                reg0 == self.reg(),
                i <= self.routing_table@.len(),
                self.table().len() == self.routing_table@.len(),
                forall|k: int| 0 <= k < i ==> (#[trigger] t0[k]).0 != requester_id@,
            ensures
                self == old(self),
                t0 == self.table(),
                reg0 == self.reg(),
                i <= self.routing_table@.len(),
                self.table().len() == self.routing_table@.len(),
                forall|k: int| 0 <= k < i ==> (#[trigger] t0[k]).0 != requester_id@,
                i < self.routing_table@.len() ==> t0[i as int].0 == requester_id@,
            decreases self.routing_table@.len() - i,
        {
            if i == self.routing_table.len() {
                break;
            }
            proof {
                assert(t0[i as int] == self.routing_table@[i as int].deep_view());
            }
            if str_eq(self.routing_table[i].0.as_str(), requester_id) {
                break;
            }
            i = i + 1;
        }
        if i == self.routing_table.len() {
            return Err(RegistryError::UnknownNode);
        }
        proof {
            lemma_table_index_unique(t0, requester_id@, i as int);
        }
        let entry = self.routing_table.remove(i);
        proof {
            assert forall|k: int| 0 <= k < self.table().len() implies self.table()[k] == t0.remove(
                i as int,
            )[k] by {
                assert(self.table()[k] == self.routing_table@[k].deep_view());
            }
            assert(self.table() =~= t0.remove(i as int));
            assert(entry.deep_view() == t0[i as int]);
            assert(has_id(reg0, entry.1@));
            assert forall|a: int, b: int| 0 <= a < b < self.table().len() implies (
            #[trigger] self.table()[a]).0 != (#[trigger] self.table()[b]).0 by {
                let a0 = if a < i as int {
                    a
                } else {
                    a + 1
                };
                let b0 = if b < i as int {
                    b
                } else {
                    b + 1
                };
                assert(self.table()[a] == t0[a0]);
                assert(self.table()[b] == t0[b0]);
            }
            assert forall|k: int| 0 <= k < self.table().len() implies has_id(
                reg0,
                (#[trigger] self.table()[k]).1,
            ) by {
                let k0 = if k < i as int {
                    k
                } else {
                    k + 1
                };
                assert(self.table()[k] == t0[k0]);
            }
        }
        let r = self.registry.adjust_load(entry.1.as_str(), -1);
        proof {
            let w = t0[i as int].1;
            let idx = index_of_id(reg0, w);
            let rec = record_of(reg0, w);
            if rec.current_load >= 1 {
                lemma_update_same_id_membership(
                    reg0,
                    idx,
                    with_load(rec, (rec.current_load - 1) as u32),
                );
            }
        }
        r
    }

    /// The health monitor's sweep: every node whose heartbeat is older
    /// than the liveness deadline is removed from the registry, every
    /// routing-table entry pointing at a removed node is dropped, and for
    /// each requester so orphaned a rejection notice is produced telling
    /// it to request placement again.  Afterwards every remaining entry
    /// points at a node that exists and is not stale.
    pub fn cleanup_inactive_nodes(&mut self, now: u64, deadline: u64) -> (notices: Vec<
        RoutingResponse,
    >)
        requires
            old(self).wf(),
        ensures
            final(self).wf(),
            final(self).reg() == fresh_records(old(self).reg(), now, deadline),
            final(self).table() == surviving_entries(old(self).table(), final(self).reg()),
            notices.deep_view() == notices_for(
                dropped_requesters(old(self).table(), final(self).reg()),
                now,
            ),
            forall|k: int|
                0 <= k < final(self).table().len() ==> has_id(
                    final(self).reg(),
                    (#[trigger] final(self).table()[k]).1,
                ) && !stale(
                    record_of(final(self).reg(), final(self).table()[k].1),
                    now,
                    deadline,
                ),
    {
        let ghost t0 = self.table();
        self.registry.remove_stale(now, deadline);
        let ghost regf = self.reg();
        let mut kept: Vec<(String, String)> = Vec::new();
        let mut notices: Vec<RoutingResponse> = Vec::new();
        let mut i: usize = 0;
        while i < self.routing_table.len()
            invariant
                i <= self.routing_table@.len(),
                t0 == self.table(),
                regf == self.reg(),
                sorted_by_id(regf),
                loads_wf(regf),
                self.table().len() == self.routing_table@.len(),
                kept.deep_view() == surviving_entries(t0.subrange(0, i as int), regf),
                notices.deep_view() == notices_for(
                    dropped_requesters(t0.subrange(0, i as int), regf),
                    now,
                ),
            decreases self.routing_table@.len() - i,
        {
            proof {
                assert(t0[i as int] == self.routing_table@[i as int].deep_view());
            }
            let ghost kept_pre = kept.deep_view();
            let ghost kept_pre_raw = kept@;
            let ghost notices_pre = notices.deep_view();
            let ghost notices_pre_raw = notices@;
            let known = self.registry.get(self.routing_table[i].1.as_str()).is_some();
            if known {
                let entry = (self.routing_table[i].0.clone(), self.routing_table[i].1.clone());
                kept.push(entry);
                proof {
                    assert forall|k: int| 0 <= k < kept.deep_view().len() implies kept.deep_view()[k]
                        == (if k < kept_pre.len() {
                        kept_pre[k]
                    } else {
                        t0[i as int]
                    }) by {
                        assert(kept.deep_view()[k] == kept@[k].deep_view());
                        if k < kept_pre.len() {
                            assert(kept@[k] == kept_pre_raw[k]);
                            assert(kept_pre[k] == kept_pre_raw[k].deep_view());
                        }
                    }
                    assert(kept.deep_view() =~= kept_pre.push(t0[i as int]));
                }
            } else {
                let notice = RoutingResponse {
                    node_id: String::from_str("none"),
                    client_id: self.routing_table[i].0.clone(),
                    status: RoutingStatus::Rejected,
                    rejection_reason: Some(String::from_str("assigned worker became unreachable")),
                    configuration: None,
                    timestamp: now,
                };
                proof {
                    assert(notice@ =~= unreachable_notice(t0[i as int].0, now));
                }
                notices.push(notice);
                proof {
                    assert forall|k: int|
                        0 <= k < notices.deep_view().len() implies notices.deep_view()[k] == (if k
                        < notices_pre.len() {
                        notices_pre[k]
                    } else {
                        unreachable_notice(t0[i as int].0, now)
                    }) by {
                        assert(notices.deep_view()[k] == notices@[k].deep_view());
                        if k < notices_pre.len() {
                            assert(notices@[k] == notices_pre_raw[k]);
                            assert(notices_pre[k] == notices_pre_raw[k].deep_view());
                        }
                    }
                    assert(notices.deep_view() =~= notices_pre.push(
                        unreachable_notice(t0[i as int].0, now),
                    ));
                }
            }
            proof {
                let sub1 = t0.subrange(0, i as int + 1);
                assert(sub1.drop_last() =~= t0.subrange(0, i as int));
                assert(sub1.last() == t0[i as int]);
                assert(kept.deep_view() =~= surviving_entries(sub1, regf));
                let d = dropped_requesters(t0.subrange(0, i as int), regf);
                if !has_id(regf, t0[i as int].1) {
                    assert(dropped_requesters(sub1, regf) == d.push(t0[i as int].0));
                    assert(d.push(t0[i as int].0).drop_last() =~= d);
                    assert(d.push(t0[i as int].0).last() == t0[i as int].0);
                }
                assert(notices.deep_view() =~= notices_for(dropped_requesters(sub1, regf), now));
            }
            i = i + 1;
        }
        proof {
            assert(t0.subrange(0, t0.len() as int) =~= t0);
        }
        self.routing_table = kept;
        proof {
            lemma_surviving_entries_wf(t0, regf);
            assert forall|k: int| 0 <= k < self.table().len() implies has_id(
                regf,
                (#[trigger] self.table()[k]).1,
            ) && !stale(record_of(regf, self.table()[k].1), now, deadline) by {
                let w = self.table()[k].1;
                assert(has_id(regf, w));
                let idx = index_of_id(regf, w);
                assert(0 <= idx < regf.len() && regf[idx].node_id == w);
                assert(!stale(regf[idx], now, deadline));
            }
        }
        notices
    }
}

} // verus!
