//! Admission control: whether one candidate worker may take one more
//! unit of load for one placement request.
//!
//! The same decision function serves both deployment shapes: the central
//! coordinator evaluates it against every candidate in its registry, and
//! a worker doing self-admission evaluates it against its own record
//! alone.  The decision has no side effects; callers apply the load
//! mutation only after an `Accept`.

use vstd::prelude::*;
use vstd::string::*;

use crate::common::{NodeInfo, NodeRecord, PlacementRequest, RoutingRequest};

verus! {

/// The admission decision for one candidate worker and one request.
#[derive(Clone, Copy, Debug, PartialEq, Eq, Structural)]
pub enum AdmissionDecision {
    /// The candidate can take one more unit of load.
    Accept,
    /// One more unit of load would exceed the candidate's capacity.
    RejectCapacity,
    /// The request names a preferred worker and the candidate is not it.
    RejectNotPreferred,
}

/// The admission rules, applied in order: first the capacity bound, then
/// the requester's preference, and otherwise acceptance.
pub open spec fn spec_admit(candidate: NodeRecord, request: PlacementRequest) -> AdmissionDecision {
    if candidate.current_load as int + 1 > candidate.capacity as int {
        AdmissionDecision::RejectCapacity
    } else {
        match request.preferred_node {
            Some(p) => if p != candidate.node_id {
                AdmissionDecision::RejectNotPreferred
            } else {
                AdmissionDecision::Accept
            },
            None => AdmissionDecision::Accept,
        }
    }
}

/// Decides whether `candidate` may take one more unit of load for
/// `request`.
pub fn decide_admission(candidate: &NodeInfo, request: &RoutingRequest) -> (d: AdmissionDecision)
    ensures
        d == spec_admit(candidate@, request@),
{
    if candidate.current_load >= candidate.capacity {
        AdmissionDecision::RejectCapacity
    } else {
        match &request.preferred_node {
            Some(p) => {
                if !crate::text::str_eq(p.as_str(), candidate.node_id.as_str()) {
                    AdmissionDecision::RejectNotPreferred
                } else {
                    AdmissionDecision::Accept
                }
            },
            None => AdmissionDecision::Accept,
        }
    }
}

/// The reason string for a capacity rejection.
pub fn capacity_reason() -> (s: String)
    ensures
        s@ == "capacity limit reached"@,
{
    String::from_str("capacity limit reached")
}

/// The reason string for a preference rejection.
pub fn not_preferred_reason() -> (s: String)
    ensures
        s@ == "not preferred target"@,
{
    String::from_str("not preferred target")
}

} // verus!
