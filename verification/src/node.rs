//! The worker node's own engine: local self-admission, load accounting,
//! and the liveness records it publishes.
//!
//! A worker answers placement requests against its own record alone,
//! with the same admission rules the coordinator applies, and reports its
//! identity and live load on every heartbeat tick.  The transport that
//! carries the messages lives outside the library.

use vstd::prelude::*;

use crate::admission::{decide_admission, spec_admit, AdmissionDecision};
use crate::common::{
    NodeInfo, NodeRecord, NodeStatus, NodeType, PlacementRequest, PlacementResponse,
    RoutingRequest, RoutingResponse, RoutingStatus,
};
use crate::registry::with_load;
use crate::routing::{build_assignment_configuration, spec_assignment_config};
use crate::topics::{build_worker_heartbeat_topic, worker_heartbeat_topic};

verus! {

/// A worker's answer to one placement request, decided against its own
/// record alone: the coordinator's admission rules, a pair-scoped
/// configuration on acceptance, and the exact reason on rejection.
pub open spec fn local_response(own: NodeRecord, request: PlacementRequest, now: u64) -> PlacementResponse {
    match spec_admit(own, request) {
        AdmissionDecision::Accept => PlacementResponse {
            node_id: own.node_id,
            client_id: request.client_id,
            status: RoutingStatus::Accepted,
            rejection_reason: None,
            configuration: Some(spec_assignment_config(own.node_id, request.client_id, 5000)),
            timestamp: now,
        },
        AdmissionDecision::RejectCapacity => PlacementResponse {
            node_id: own.node_id,
            client_id: request.client_id,
            status: RoutingStatus::Rejected,
            rejection_reason: Some("capacity limit reached"@),
            configuration: None,
            timestamp: now,
        },
        AdmissionDecision::RejectNotPreferred => PlacementResponse {
            node_id: own.node_id,
            client_id: request.client_id,
            status: RoutingStatus::Rejected,
            rejection_reason: Some("not preferred target"@),
            configuration: None,
            timestamp: now,
        },
    }
}

/// A worker node: its immutable identity and its live load counter.
pub struct Node {
    /// The worker's own record, as created at startup.
    pub node_info: NodeInfo,
    /// The number of operations currently being processed.
    pub current_load: u32,
}

impl Node {
    /// A fresh worker with the given capacity and no load.
    pub fn new(capacity: u32, now: u64) -> (n: Node)
        ensures
            n.node_info@.node_type == NodeType::Node,
            n.node_info@.status == NodeStatus::Active,
            n.node_info@.capacity == capacity,
            n.node_info@.current_load == 0,
            n.node_info@.last_heartbeat == now,
            crate::common::id_wf(n.node_info@.node_id),
            n.current_load == 0,
    {
        Node { node_info: NodeInfo::new(NodeType::Node, capacity, now), current_load: 0 }
    }

    /// The worker's record as it stands right now: its identity with the
    /// live load and the current time.
    pub open spec fn own_record(&self, now: u64) -> NodeRecord {
        NodeRecord {
            last_heartbeat: now,
            current_load: self.current_load,
            ..self.node_info@
        }
    }

    /// Answers one placement request against this worker's own record:
    /// the same admission rules as the coordinator's, evaluated locally.
    pub fn handle_routing_request(&self, request: &RoutingRequest, now: u64) -> (resp:
        RoutingResponse)
        ensures
            resp@ == local_response(
                with_load(self.node_info@, self.current_load),
                request@,
                now,
            ),
    {
        let mut candidate = self.node_info.clone();
        candidate.current_load = self.current_load;
        proof {
            assert(candidate@ =~= with_load(self.node_info@, self.current_load));
        }
        let decision = decide_admission(&candidate, request);
        match decision {
            AdmissionDecision::Accept => {
                let config = build_assignment_configuration(
                    self.node_info.node_id.as_str(),
                    request.client_id.as_str(),
                    5000,
                );
                RoutingResponse {
                    node_id: self.node_info.node_id.clone(),
                    client_id: request.client_id.clone(),
                    status: RoutingStatus::Accepted,
                    rejection_reason: None,
                    configuration: Some(config),
                    timestamp: now,
                }
            },
            AdmissionDecision::RejectCapacity => RoutingResponse {
                node_id: self.node_info.node_id.clone(),
                client_id: request.client_id.clone(),
                status: RoutingStatus::Rejected,
                rejection_reason: Some(crate::admission::capacity_reason()),
                configuration: None,
                timestamp: now,
            },
            AdmissionDecision::RejectNotPreferred => RoutingResponse {
                node_id: self.node_info.node_id.clone(),
                client_id: request.client_id.clone(),
                status: RoutingStatus::Rejected,
                rejection_reason: Some(crate::admission::not_preferred_reason()),
                configuration: None,
                timestamp: now,
            },
        }
    }

    /// The worker's periodic liveness message: its record with the live
    /// load and the current time, and the topic to publish it on.
    pub fn heartbeat_message(&self, now: u64) -> (r: (String, NodeInfo))
        ensures
            r.0@ == worker_heartbeat_topic(self.node_info@.node_id),
            r.1@ == self.own_record(now),
    {
        let mut record = self.node_info.clone();
        record.last_heartbeat = now;
        record.current_load = self.current_load;
        let topic = build_worker_heartbeat_topic(self.node_info.node_id.as_str());
        proof {
            assert(record@ =~= self.own_record(now));
        }
        (topic, record)
    }

    /// The final liveness-down record published at shutdown: the
    /// worker's record marked `Inactive`, and its heartbeat topic.
    pub fn shutdown_message(&self, now: u64) -> (r: (String, NodeInfo))
        ensures
            r.0@ == worker_heartbeat_topic(self.node_info@.node_id),
            r.1@ == (NodeRecord {
                status: NodeStatus::Inactive,
                ..self.own_record(now)
            }),
    {
        let mut record = self.node_info.clone();
        record.last_heartbeat = now;
        record.current_load = self.current_load;
        record.status = NodeStatus::Inactive;
        let topic = build_worker_heartbeat_topic(self.node_info.node_id.as_str());
        proof {
            assert(record@ =~= NodeRecord {
                status: NodeStatus::Inactive,
                ..self.own_record(now)
            });
        }
        (topic, record)
    }

    /// Takes on one unit of load when a data packet arrives.
    pub fn begin_processing(&mut self)
        requires
            old(self).current_load < u32::MAX,
        ensures
            final(self).current_load == old(self).current_load + 1,
            final(self).node_info == old(self).node_info,
    {
        self.current_load = self.current_load + 1;
    }

    /// Gives back one unit of load when a data packet is done; load
    /// never goes below zero.
    pub fn finish_processing(&mut self)
        ensures
            final(self).current_load == if old(self).current_load > 0 {
                (old(self).current_load - 1) as u32
            } else {
                0u32
            },
            final(self).node_info == old(self).node_info,
    {
        if self.current_load > 0 {
            self.current_load = self.current_load - 1;
        }
    }
}

} // verus!
