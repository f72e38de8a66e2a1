//! Centralized worker selection for one placement request.
//!
//! The coordinator filters its registry snapshot down to candidates that
//! are active workers and pass admission, ranks them by ascending load
//! ratio `current_load / capacity` — compared as exact fractions by
//! cross-multiplication, never truncated — and breaks ties by ascending
//! node id.  Selection is a pure function of the snapshot and the
//! request, so identical inputs always pick the same worker.

use vstd::prelude::*;

use crate::admission::{decide_admission, spec_admit, AdmissionDecision};
use crate::common::{
    AssignmentConfiguration, ClientConfiguration, NodeInfo, NodeRecord, NodeStatus, NodeType,
    PlacementRequest, RoutingRequest,
};
use crate::registry::sorted_by_id;
use crate::text::{lemma_lex_lt_irreflexive, lemma_lex_lt_transitive, lex_lt};

verus! {

/// Whether a record is a candidate for the request: an active worker
/// that admission accepts.
pub open spec fn eligible(c: NodeRecord, r: PlacementRequest) -> bool {
    &&& c.status == NodeStatus::Active
    &&& c.node_type == NodeType::Node
    &&& spec_admit(c, r) == AdmissionDecision::Accept
}

/// Whether `a` has a strictly smaller load ratio than `b`, with the
/// ratios `current_load / capacity` compared by cross-multiplication.
pub open spec fn ratio_lt(a: NodeRecord, b: NodeRecord) -> bool {
    (a.current_load as int) * (b.capacity as int) < (b.current_load as int) * (a.capacity as int)
}

/// The best candidate among the first `n` records: the least load ratio,
/// the earliest record on a tie.
pub open spec fn best_in_prefix(s: Seq<NodeRecord>, r: PlacementRequest, n: int) -> Option<int>
    decreases n,
{
    if n <= 0 {
        None
    } else {
        let prev = best_in_prefix(s, r, n - 1);
        if eligible(s[n - 1], r) {
            match prev {
                None => Some(n - 1),
                Some(j) => if ratio_lt(s[n - 1], s[j]) {
                    Some(n - 1)
                } else {
                    Some(j)
                },
            }
        } else {
            prev
        }
    }
}

/// The selected candidate for the request, as an index into the
/// snapshot, or `None` when no record is eligible.
pub open spec fn spec_select(s: Seq<NodeRecord>, r: PlacementRequest) -> Option<int> {
    best_in_prefix(s, r, s.len() as int)
}

/// Comparing fractions `l/c` by cross-multiplication is transitive: if
/// `la/ca < lb/cb` and `lb/cb <= lc/cc`, then `la/ca < lc/cc`.
proof fn lemma_frac_lt_trans(la: int, ca: int, lb: int, cb: int, lc: int, cc: int)
    by (nonlinear_arith)
    requires
        ca > 0,
        cb > 0,
        cc > 0,
        la * cb < lb * ca,
        lc * cb >= lb * cc,
    ensures
        la * cc < lc * ca,
{
}

/// An eligible candidate has room for one more unit of load, so its
/// capacity is positive.
proof fn lemma_eligible_capacity(c: NodeRecord, r: PlacementRequest)
    requires
        eligible(c, r),
    ensures
        c.capacity > 0,
{
}

proof fn lemma_best_in_prefix_props(s: Seq<NodeRecord>, r: PlacementRequest, n: int)
    requires
        0 <= n <= s.len(),
    ensures
        best_in_prefix(s, r, n) is None <==> (forall|k: int| 0 <= k < n ==> !eligible(s[k], r)),
        match best_in_prefix(s, r, n) {
            Some(i) => 0 <= i < n && eligible(s[i], r) && forall|k: int|
                0 <= k < n && k != i && eligible(s[k], r) ==> ratio_lt(s[i], s[k]) || (!ratio_lt(
                    s[k],
                    s[i],
                ) && i < k),
            None => true,
        },
    decreases n,
{
    if n > 0 {
        lemma_best_in_prefix_props(s, r, n - 1);
        let prev = best_in_prefix(s, r, n - 1);
        let cur = best_in_prefix(s, r, n);
        if cur is Some {
            let i = cur->0;
            assert forall|k: int|
                0 <= k < n && k != i && eligible(s[k], r) implies ratio_lt(s[i], s[k]) || (
            !ratio_lt(s[k], s[i]) && i < k) by {
                lemma_eligible_capacity(s[i], r);
                lemma_eligible_capacity(s[k], r);
                if eligible(s[n - 1], r) && prev is Some {
                    let j = prev->0;
                    lemma_eligible_capacity(s[j], r);
                    if i == n - 1 && k < n - 1 && k != j {
                        // The new candidate strictly beats the previous
                        // best, which was at least as good as `k`.
                        lemma_frac_lt_trans(
                            s[i].current_load as int,
                            s[i].capacity as int,
                            s[j].current_load as int,
                            s[j].capacity as int,
                            s[k].current_load as int,
                            s[k].capacity as int,
                        );
                    }
                }
            }
        }
    }
}

/// Which worker selection picks, and why it is deterministic: the
/// selected candidate is eligible and strictly precedes every other
/// eligible candidate in the order "smaller load ratio first, smaller
/// node id on a tie"; and when no candidate is eligible, nothing is
/// selected.
pub proof fn lemma_select_characterization(s: Seq<NodeRecord>, r: PlacementRequest)
    requires
        sorted_by_id(s),
    ensures
        spec_select(s, r) is None <==> (forall|k: int| 0 <= k < s.len() ==> !eligible(s[k], r)),
        match spec_select(s, r) {
            Some(i) => 0 <= i < s.len() && eligible(s[i], r) && forall|k: int|
                0 <= k < s.len() && k != i && eligible(s[k], r) ==> ratio_lt(s[i], s[k]) || (
                !ratio_lt(s[k], s[i]) && lex_lt(s[i].node_id, s[k].node_id)),
            None => true,
        },
{
    lemma_best_in_prefix_props(s, r, s.len() as int);
    match spec_select(s, r) {
        Some(i) => {
            assert forall|k: int|
                0 <= k < s.len() && k != i && eligible(s[k], r) implies ratio_lt(s[i], s[k]) || (
            !ratio_lt(s[k], s[i]) && lex_lt(s[i].node_id, s[k].node_id)) by {
                if !ratio_lt(s[i], s[k]) {
                    assert(i < k);
                }
            }
        },
        None => {},
    }
}

/// Determinism of selection: any two candidates that each strictly
/// precede every other eligible candidate are one and the same.
pub proof fn lemma_select_deterministic(s: Seq<NodeRecord>, r: PlacementRequest, i: int, j: int)
    requires
        sorted_by_id(s),
        0 <= i < s.len(),
        0 <= j < s.len(),
        eligible(s[i], r),
        eligible(s[j], r),
        forall|k: int|
            0 <= k < s.len() && k != i && eligible(s[k], r) ==> ratio_lt(s[i], s[k]) || (!ratio_lt(
                s[k],
                s[i],
            ) && lex_lt(s[i].node_id, s[k].node_id)),
        forall|k: int|
            0 <= k < s.len() && k != j && eligible(s[k], r) ==> ratio_lt(s[j], s[k]) || (!ratio_lt(
                s[k],
                s[j],
            ) && lex_lt(s[j].node_id, s[k].node_id)),
    ensures
        i == j,
{
    if i != j {
        assert(ratio_lt(s[i], s[j]) || (!ratio_lt(s[j], s[i]) && lex_lt(
            s[i].node_id,
            s[j].node_id,
        )));
        assert(ratio_lt(s[j], s[i]) || (!ratio_lt(s[i], s[j]) && lex_lt(
            s[j].node_id,
            s[i].node_id,
        )));
        if lex_lt(s[i].node_id, s[j].node_id) && lex_lt(s[j].node_id, s[i].node_id) {
            lemma_lex_lt_transitive(s[i].node_id, s[j].node_id, s[i].node_id);
            lemma_lex_lt_irreflexive(s[i].node_id);
        }
    }
}

/// Selects the best eligible worker in the snapshot for the request:
/// least load ratio first, smallest node id on a tie.
pub fn select_worker(snapshot: &Vec<NodeInfo>, request: &RoutingRequest) -> (r: Option<usize>)
    ensures
        match r {
            Some(i) => i < snapshot@.len() && spec_select(snapshot.deep_view(), request@) == Some(
                i as int,
            ),
            None => spec_select(snapshot.deep_view(), request@) is None,
        },
{
    let ghost s = snapshot.deep_view();
    let mut best: Option<usize> = None;
    let mut i: usize = 0;
    while i < snapshot.len()
        invariant
            i <= snapshot@.len(),
            s == snapshot.deep_view(),
            s.len() == snapshot@.len(),
            match best {
                Some(b) => b < i && best_in_prefix(s, request@, i as int) == Some(b as int),
                None => best_in_prefix(s, request@, i as int) is None,
            },
        decreases snapshot@.len() - i,
    {
        proof {
            assert(s[i as int] == snapshot@[i as int]@);
        }
        let candidate = &snapshot[i];
        let ok = candidate.status == NodeStatus::Active && candidate.node_type == NodeType::Node
            && matches!(decide_admission(candidate, request), AdmissionDecision::Accept);
        if ok {
            match best {
                None => {
                    best = Some(i);
                },
                Some(b) => {
                    proof {
                        assert(s[b as int] == snapshot@[b as int]@);
                    }
                    let current = &snapshot[b];
                    proof {
                        assert((candidate.current_load as int) * (current.capacity as int)
                            < 0x10000000000000000 && (current.current_load as int)
                            * (candidate.capacity as int) < 0x10000000000000000) by (nonlinear_arith)
                            requires
                                candidate.current_load < 0x100000000,
                                current.capacity < 0x100000000,
                                current.current_load < 0x100000000,
                                candidate.capacity < 0x100000000,
                        {
                        }
                    }
                    let lhs: u64 = candidate.current_load as u64 * current.capacity as u64;
                    let rhs: u64 = current.current_load as u64 * candidate.capacity as u64;
                    if lhs < rhs {
                        best = Some(i);
                    }
                },
            }
        }
        i = i + 1;
    }
    best
}

/// The configuration for one accepted worker/requester pair: the
/// requester subscribes to the pair's response topic and publishes on the
/// pair's request topic, so no two pairs collide.
pub open spec fn spec_assignment_config(
    worker: Seq<char>,
    requester: Seq<char>,
    timeout_ms: u64,
) -> AssignmentConfiguration {
    AssignmentConfiguration {
        subscribe_topics: seq![crate::topics::data_response_topic(worker, requester)],
        publish_topic: crate::topics::data_request_topic(worker, requester),
        qos: 1,
        max_batch_size: 100,
        processing_timeout_ms: timeout_ms,
    }
}

/// Builds the configuration for one accepted worker/requester pair.
pub fn build_assignment_configuration(
    worker_id: &str,
    requester_id: &str,
    timeout_ms: u64,
) -> (c: ClientConfiguration)
    ensures
        c@ == spec_assignment_config(worker_id@, requester_id@, timeout_ms),
{
    let mut topics: Vec<String> = Vec::new();
    topics.push(crate::topics::build_data_response_topic(worker_id, requester_id));
    let c = ClientConfiguration {
        subscribe_topics: topics,
        publish_topic: crate::topics::build_data_request_topic(worker_id, requester_id),
        qos: 1,
        max_batch_size: 100,
        processing_timeout_ms: timeout_ms,
    };
    proof {
        assert(c.subscribe_topics.deep_view() =~= seq![
            crate::topics::data_response_topic(worker_id@, requester_id@),
        ]);
        assert(c@ =~= spec_assignment_config(worker_id@, requester_id@, timeout_ms));
    }
    c
}

} // verus!
