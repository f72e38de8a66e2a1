//! The requester node's engine: placement-seeking, heartbeat ticks, and
//! the state transition driven by placement responses.
//!
//! A requester either has a coordinator (the worker it is assigned to)
//! or is seeking one.  On every heartbeat tick it publishes its liveness
//! if assigned, and a fresh placement request otherwise.  Responses move
//! the state: an acceptance records the worker and its configuration, a
//! rejection clears both, a pending answer changes nothing.  The
//! transport that carries the messages lives outside the library.

use vstd::prelude::*;
use vstd::string::*;

use crate::common::{
    id_wf, DataRequest, NodeInfo, NodeRecord, NodeStatus, NodeType, PlacementRequest,
    RoutingRequest, RoutingResponse, RoutingStatus,
};
use crate::topics::{
    build_data_request_topic, build_placement_request_topic, build_requester_heartbeat_topic,
    data_request_topic, placement_request_topic, requester_heartbeat_topic,
};

verus! {

/// What the heartbeat tick asks the transport to publish: the
/// requester's liveness when it has a coordinator, a fresh placement
/// request when it is seeking one.
pub enum EmitterAction {
    PublishHeartbeat { topic: String, record: NodeInfo },
    RequestPlacement { topic: String, request: RoutingRequest },
}

/// A requester node: its identity, its live load, and what it knows
/// about its assignment.
pub struct RequesterState {
    /// The requester's own record, as created at startup.
    pub node_info: NodeInfo,
    /// The number of operations currently in flight.
    pub current_load: u32,
    /// The worker this requester is assigned to, if any.
    pub coordinator: Option<String>,
    /// The configuration received with the acceptance, if any.
    pub configuration: Option<crate::common::ClientConfiguration>,
}

impl RequesterState {
    /// A fresh requester with the given capacity, not yet assigned.
    pub fn new(capacity: u32, now: u64) -> (r: RequesterState)
        ensures
            r.node_info@.node_type == NodeType::Client,
            r.node_info@.status == NodeStatus::Active,
            r.node_info@.capacity == capacity,
            r.node_info@.last_heartbeat == now,
            id_wf(r.node_info@.node_id),
            r.current_load == 0,
            r.coordinator is None,
            r.configuration is None,
    {
        RequesterState {
            node_info: NodeInfo::new(NodeType::Client, capacity, now),
            current_load: 0,
            coordinator: None,
            configuration: None,
        }
    }

    /// The requester's record as it stands right now.
    pub open spec fn own_record(&self, now: u64) -> NodeRecord {
        NodeRecord {
            last_heartbeat: now,
            current_load: self.current_load,
            ..self.node_info@
        }
    }

    /// A fresh placement request carrying the requester's identity, the
    /// data kinds it wants, and no worker preference.
    pub fn build_placement_request(&self, data_kinds: Vec<String>, now: u64) -> (r: RoutingRequest)
        requires
            data_kinds@.len() > 0,
        ensures
            r@ == (PlacementRequest {
                client_id: self.node_info@.node_id,
                data_type: data_kinds.deep_view(),
                node_info: self.own_record(now),
                preferred_node: None,
                timestamp: now,
            }),
    {
        let mut own = self.node_info.clone();
        own.last_heartbeat = now;
        own.current_load = self.current_load;
        let r = RoutingRequest {
            client_id: self.node_info.node_id.clone(),
            data_type: data_kinds,
            node_info: own,
            preferred_node: None,
            timestamp: now,
        };
        proof {
            assert(r@ =~= PlacementRequest {
                client_id: self.node_info@.node_id,
                data_type: r.data_type.deep_view(),
                node_info: self.own_record(now),
                preferred_node: None,
                timestamp: now,
            });
        }
        r
    }

    /// One heartbeat tick: publish liveness when assigned, otherwise ask
    /// for placement with the given data kinds.
    pub fn heartbeat_tick(&self, data_kinds: Vec<String>, now: u64) -> (action: EmitterAction)
        requires
            data_kinds@.len() > 0,
        ensures
            match action {
                EmitterAction::PublishHeartbeat { topic, record } => {
                    &&& self.coordinator is Some
                    &&& topic@ == requester_heartbeat_topic(self.node_info@.node_id)
                    &&& record@ == self.own_record(now)
                },
                EmitterAction::RequestPlacement { topic, request } => {
                    &&& self.coordinator is None
                    &&& topic@ == placement_request_topic()
                    &&& request@ == (PlacementRequest {
                        client_id: self.node_info@.node_id,
                        data_type: data_kinds.deep_view(),
                        node_info: self.own_record(now),
                        preferred_node: None,
                        timestamp: now,
                    })
                },
            },
    {
        match &self.coordinator {
            Some(_) => {
                let mut record = self.node_info.clone();
                record.last_heartbeat = now;
                record.current_load = self.current_load;
                proof {
                    assert(record@ =~= self.own_record(now));
                }
                EmitterAction::PublishHeartbeat {
                    topic: build_requester_heartbeat_topic(self.node_info.node_id.as_str()),
                    record,
                }
            },
            None => EmitterAction::RequestPlacement {
                topic: build_placement_request_topic(),
                request: self.build_placement_request(data_kinds, now),
            },
        }
    }

    /// Applies one placement response: an acceptance records the worker
    /// and its configuration, a rejection clears both, a pending answer
    /// changes nothing.
    pub fn apply_routing_response(&mut self, response: RoutingResponse)
        ensures
            final(self).node_info == old(self).node_info,
            final(self).current_load == old(self).current_load,
            match response.status {
                RoutingStatus::Accepted => final(self).coordinator matches Some(c) && c@
                    == response.node_id@ && final(self).configuration == response.configuration,
                RoutingStatus::Rejected => final(self).coordinator is None
                    && final(self).configuration is None,
                RoutingStatus::Pending => final(self).coordinator == old(self).coordinator
                    && final(self).configuration == old(self).configuration,
            },
    {
        match response.status {
            RoutingStatus::Accepted => {
                self.coordinator = Some(response.node_id);
                self.configuration = response.configuration;
            },
            RoutingStatus::Rejected => {
                self.coordinator = None;
                self.configuration = None;
            },
            RoutingStatus::Pending => {},
        }
    }

    /// A data request for the assigned worker, under a fresh request id,
    /// on the pair-scoped request topic; nothing when no worker is
    /// assigned.
    pub fn build_data_request(&self, data_kinds: Vec<String>) -> (r: Option<(String, DataRequest)>)
        ensures
            r is Some <==> self.coordinator is Some,
            r matches Some((topic, req)) ==> {
                &&& topic@ == data_request_topic(
                    self.coordinator->0@,
                    self.node_info@.node_id,
                )
                &&& req.client_id@ == self.node_info@.node_id
                &&& req.data_types.deep_view() == data_kinds.deep_view()
                &&& req.request_id@.len() == 36
            },
    {
        match &self.coordinator {
            Some(worker) => {
                let topic = build_data_request_topic(worker.as_str(), self.node_info.node_id.as_str());
                let req = DataRequest {
                    request_id: crate::common::fresh_uuid_string(),
                    client_id: self.node_info.node_id.clone(),
                    data_types: data_kinds,
                };
                Some((topic, req))
            },
            None => None,
        }
    }

    /// The final liveness-down record published at shutdown: the
    /// requester's record marked `Offline`, and its heartbeat topic.
    pub fn shutdown_message(&self, now: u64) -> (r: (String, NodeInfo))
        ensures
            r.0@ == requester_heartbeat_topic(self.node_info@.node_id),
            r.1@ == (NodeRecord {
                status: NodeStatus::Offline,
                ..self.own_record(now)
            }),
    {
        let mut record = self.node_info.clone();
        record.last_heartbeat = now;
        record.current_load = self.current_load;
        record.status = NodeStatus::Offline;
        let topic = build_requester_heartbeat_topic(self.node_info.node_id.as_str());
        proof {
            assert(record@ =~= NodeRecord {
                status: NodeStatus::Offline,
                ..self.own_record(now)
            });
        }
        (topic, record)
    }
}

} // verus!
