//! The data model shared by every component: node records, placement
//! requests and responses, assignment configurations, and the data-exchange
//! envelopes.
//!
//! A node identifier is a plain string.  Identifiers are generated once, at
//! node creation, from the node's role and a fresh random identifier; they
//! never contain the `/` topic separator, so a topic built around one can
//! be parsed back unambiguously.

use vstd::prelude::*;

verus! {

/// Operational status of a node.
#[derive(Clone, Copy, Debug, PartialEq, Eq, Structural)]
pub enum NodeStatus {
    Active,
    Inactive,
    Maintenance,
    Error,
    Offline,
}

/// Role of a node in the cluster.
#[derive(Clone, Copy, Debug, PartialEq, Eq, Structural)]
pub enum NodeType {
    Node,
    Client,
    Monitor,
}

/// Outcome of a placement request.
#[derive(Clone, Copy, Debug, PartialEq, Eq, Structural)]
pub enum RoutingStatus {
    Accepted,
    Rejected,
    Pending,
}

/// Status of processing one data packet.
#[derive(Clone, Copy, Debug, PartialEq, Eq, Structural)]
pub enum ProcessingStatus {
    Processed,
    Failed,
    Timeout,
    InvalidInput,
}

impl Default for ProcessingStatus {
    /// A fresh processing report starts out successful.
    fn default() -> (r: Self)
        ensures
            r == ProcessingStatus::Processed,
    {
        ProcessingStatus::Processed
    }
}

/// A well-formed node identifier: non-empty and free of the `/` topic
/// separator, so that a topic carrying it can be split back apart.
pub open spec fn id_wf(s: Seq<char>) -> bool {
    &&& 0 < s.len()
    &&& forall|i: int| 0 <= i < s.len() ==> s[i] != '/'
}

impl NodeType {
    /// The lowercase role name used as the prefix of generated node ids.
    pub open spec fn lower_label_spec(self) -> Seq<char> {
        match self {
            NodeType::Node => "node"@,
            NodeType::Client => "client"@,
            NodeType::Monitor => "monitor"@,
        }
    }

    /// The capitalized role name, for reports.
    pub fn label(&self) -> (s: &'static str)
        ensures
            self is Node ==> s@ == "Node"@,
            self is Client ==> s@ == "Client"@,
            self is Monitor ==> s@ == "Monitor"@,
    {
        match self {
            NodeType::Node => "Node",
            NodeType::Client => "Client",
            NodeType::Monitor => "Monitor",
        }
    }

    /// The lowercase role name used as the prefix of generated node ids.
    pub fn lower_label(&self) -> (s: &'static str)
        ensures
            s@ == self.lower_label_spec(),
            id_wf(s@),
    {
        proof {
            reveal_strlit("node");
            reveal_strlit("client");
            reveal_strlit("monitor");
        }
        match self {
            NodeType::Node => "node",
            NodeType::Client => "client",
            NodeType::Monitor => "monitor",
        }
    }
}

/// The mathematical model of a [`NodeInfo`]: the same fields over
/// character sequences.
#[verifier::ext_equal]
pub ghost struct NodeRecord {
    pub node_id: Seq<char>,
    pub node_type: NodeType,
    pub last_heartbeat: u64,
    pub status: NodeStatus,
    pub capacity: u32,
    pub current_load: u32,
    pub version: Seq<char>,
    pub metadata: Seq<(Seq<char>, Seq<char>)>,
}

/// One entry per node: identity, role, liveness, capacity and load.
#[derive(Debug)]
pub struct NodeInfo {
    /// Unique identifier for the node, assigned once at creation.
    pub node_id: String,
    /// Role of the node.
    pub node_type: NodeType,
    /// Timestamp of the newest heartbeat observed for this node.
    pub last_heartbeat: u64,
    /// Current operational status.
    pub status: NodeStatus,
    /// Maximum number of concurrent operations the node can handle.
    pub capacity: u32,
    /// Current number of operations being processed.
    pub current_load: u32,
    /// Version of the node software.
    pub version: String,
    /// Informational key-value pairs.
    pub metadata: Vec<(String, String)>,
}

impl DeepView for NodeInfo {
    type V = NodeRecord;

    open spec fn deep_view(&self) -> NodeRecord {
        self.view()
    }
}

impl View for NodeInfo {
    type V = NodeRecord;

    open spec fn view(&self) -> NodeRecord {
        NodeRecord {
            node_id: self.node_id@,
            node_type: self.node_type,
            last_heartbeat: self.last_heartbeat,
            status: self.status,
            capacity: self.capacity,
            current_load: self.current_load,
            version: self.version@,
            metadata: self.metadata.deep_view(),
        }
    }
}

/// The mathematical model of a [`RoutingRequest`].
#[verifier::ext_equal]
pub ghost struct PlacementRequest {
    pub client_id: Seq<char>,
    pub data_type: Seq<Seq<char>>,
    pub node_info: NodeRecord,
    pub preferred_node: Option<Seq<char>>,
    pub timestamp: u64,
}

/// A placement request sent by a requester node.
#[derive(Debug)]
pub struct RoutingRequest {
    /// Identifier of the requester.
    pub client_id: String,
    /// Kinds of data this requester wants to exchange.
    pub data_type: Vec<String>,
    /// The requester's self-description.
    pub node_info: NodeInfo,
    /// Requested worker node id, if the requester has a preference.
    pub preferred_node: Option<String>,
    /// Timestamp of the request.
    pub timestamp: u64,
}

impl View for RoutingRequest {
    type V = PlacementRequest;

    open spec fn view(&self) -> PlacementRequest {
        PlacementRequest {
            client_id: self.client_id@,
            data_type: self.data_type.deep_view(),
            node_info: self.node_info@,
            preferred_node: self.preferred_node.deep_view(),
            timestamp: self.timestamp,
        }
    }
}

/// The answer to a placement request.
#[derive(Debug)]
pub struct RoutingResponse {
    /// Identifier of the worker accepting or rejecting the request, or
    /// `"none"` when no worker was selected.
    pub node_id: String,
    /// Identifier of the requester being answered.
    pub client_id: String,
    /// Whether the request was accepted.
    pub status: RoutingStatus,
    /// Present exactly when the request was rejected.
    pub rejection_reason: Option<String>,
    /// Present exactly when the request was accepted.
    pub configuration: Option<ClientConfiguration>,
    /// Timestamp of the response.
    pub timestamp: u64,
}

/// Configuration handed to a requester upon acceptance, scoped to the
/// accepted worker/requester pair.
#[derive(Debug)]
pub struct ClientConfiguration {
    /// Topics the requester must subscribe to.
    pub subscribe_topics: Vec<String>,
    /// Topic the requester must publish to.
    pub publish_topic: String,
    /// Quality-of-service level to use.
    pub qos: u8,
    /// Maximum batch size for processing.
    pub max_batch_size: u32,
    /// Processing timeout in milliseconds.
    pub processing_timeout_ms: u64,
}

/// The mathematical model of a [`RoutingResponse`].
#[verifier::ext_equal]
pub ghost struct PlacementResponse {
    pub node_id: Seq<char>,
    pub client_id: Seq<char>,
    pub status: RoutingStatus,
    pub rejection_reason: Option<Seq<char>>,
    pub configuration: Option<AssignmentConfiguration>,
    pub timestamp: u64,
}

impl View for RoutingResponse {
    type V = PlacementResponse;

    open spec fn view(&self) -> PlacementResponse {
        PlacementResponse {
            node_id: self.node_id@,
            client_id: self.client_id@,
            status: self.status,
            rejection_reason: self.rejection_reason.deep_view(),
            configuration: self.configuration.deep_view(),
            timestamp: self.timestamp,
        }
    }
}

impl DeepView for RoutingResponse {
    type V = PlacementResponse;

    open spec fn deep_view(&self) -> PlacementResponse {
        self.view()
    }
}

/// The mathematical model of a [`ClientConfiguration`].
#[verifier::ext_equal]
pub ghost struct AssignmentConfiguration {
    pub subscribe_topics: Seq<Seq<char>>,
    pub publish_topic: Seq<char>,
    pub qos: u8,
    pub max_batch_size: u32,
    pub processing_timeout_ms: u64,
}

impl View for ClientConfiguration {
    type V = AssignmentConfiguration;

    open spec fn view(&self) -> AssignmentConfiguration {
        AssignmentConfiguration {
            subscribe_topics: self.subscribe_topics.deep_view(),
            publish_topic: self.publish_topic@,
            qos: self.qos,
            max_batch_size: self.max_batch_size,
            processing_timeout_ms: self.processing_timeout_ms,
        }
    }
}

impl DeepView for ClientConfiguration {
    type V = AssignmentConfiguration;

    open spec fn deep_view(&self) -> AssignmentConfiguration {
        self.view()
    }
}

/// A request for data, sent by a requester to its assigned worker.
#[derive(Debug)]
pub struct DataRequest {
    /// Unique identifier of this request.
    pub request_id: String,
    /// Identifier of the requester.
    pub client_id: String,
    /// Kinds of data requested.
    pub data_types: Vec<String>,
}

/// A report on the processing of one data packet.
#[derive(Debug)]
pub struct DataResponse {
    /// Identifier of the processed packet.
    pub packet_id: String,
    /// Timestamp at which the packet was received.
    pub received_at: String,
    /// Status of the processing.
    pub status: ProcessingStatus,
    /// Time taken to process, in milliseconds.
    pub processing_time_ms: u64,
    /// Any errors that occurred during processing.
    pub errors: Vec<String>,
    /// The processing node's self-description.
    pub processor_info: NodeInfo,
}

/// Copies a vector of strings element by element.
pub fn clone_strings(v: &Vec<String>) -> (r: Vec<String>)
    ensures
        r@ == v@,
{
    let mut r: Vec<String> = Vec::new();
    let mut i: usize = 0;
    while i < v.len()
        invariant
            i <= v@.len(),
            r@ =~= v@.subrange(0, i as int),
        decreases v@.len() - i,
    {
        r.push(v[i].clone());
        i = i + 1;
    }
    proof {
        assert(r@ =~= v@);
    }
    r
}

/// Copies a vector of string pairs element by element.
fn clone_string_pairs(v: &Vec<(String, String)>) -> (r: Vec<(String, String)>)
    ensures
        r@ == v@,
{
    let mut r: Vec<(String, String)> = Vec::new();
    let mut i: usize = 0;
    while i < v.len()
        invariant
            i <= v@.len(),
            r@ =~= v@.subrange(0, i as int),
        decreases v@.len() - i,
    {
        let pair = (v[i].0.clone(), v[i].1.clone());
        r.push(pair);
        i = i + 1;
    }
    proof {
        assert(r@ =~= v@);
    }
    r
}

/// Copies an optional string.
pub fn clone_opt_string(v: &Option<String>) -> (r: Option<String>)
    ensures
        r == *v,
{
    match v {
        Some(s) => Some(s.clone()),
        None => None,
    }
}

impl Clone for NodeInfo {
    fn clone(&self) -> (r: Self)
        ensures
            r@ == self@,
    {
        NodeInfo {
            node_id: self.node_id.clone(),
            node_type: self.node_type,
            last_heartbeat: self.last_heartbeat,
            status: self.status,
            capacity: self.capacity,
            current_load: self.current_load,
            version: self.version.clone(),
            metadata: clone_string_pairs(&self.metadata),
        }
    }
}

impl Clone for ClientConfiguration {
    fn clone(&self) -> (r: Self)
        ensures
            r@ == self@,
    {
        ClientConfiguration {
            subscribe_topics: clone_strings(&self.subscribe_topics),
            publish_topic: self.publish_topic.clone(),
            qos: self.qos,
            max_batch_size: self.max_batch_size,
            processing_timeout_ms: self.processing_timeout_ms,
        }
    }
}

impl Clone for RoutingRequest {
    fn clone(&self) -> (r: Self)
        ensures
            r@ == self@,
    {
        RoutingRequest {
            client_id: self.client_id.clone(),
            data_type: clone_strings(&self.data_type),
            node_info: self.node_info.clone(),
            preferred_node: clone_opt_string(&self.preferred_node),
            timestamp: self.timestamp,
        }
    }
}

/// Relies on uuid's `Uuid::new_v4` and its `Display` form: a fresh random
/// identifier rendered as exactly 36 characters, each a lowercase
/// hexadecimal digit or a hyphen.
#[verifier::external_body]
pub(crate) fn fresh_uuid_string() -> (r: String)
    ensures
        r@.len() == 36,
        forall|i: int|
            0 <= i < r@.len() ==> (r@[i] == '-' || ('0' <= r@[i] <= '9') || ('a' <= r@[i]
                <= 'f')),
{
    uuid::Uuid::new_v4().to_string()
}

impl NodeInfo {
    /// A freshly created node record: a new unique id prefixed with the
    /// lowercase role name, status `Active`, no load, and `now` as the
    /// first heartbeat timestamp.
    pub fn new(node_type: NodeType, capacity: u32, now: u64) -> (r: NodeInfo)
        ensures
            r.node_type == node_type,
            r.status == NodeStatus::Active,
            r.capacity == capacity,
            r.current_load == 0,
            r.last_heartbeat == now,
            r.version@ == "0.1.0"@,
            r.metadata@.len() == 0,
            id_wf(r.node_id@),
            r.node_id@.len() == node_type.lower_label_spec().len() + 37,
            r.node_id@.subrange(0, node_type.lower_label_spec().len() as int)
                == node_type.lower_label_spec(),
            r.node_id@[node_type.lower_label_spec().len() as int] == '-',
    {
        let lower = node_type.lower_label();
        let uuid = fresh_uuid_string();
        proof {
            reveal_strlit("-");
        }
        let id = String::from_str(lower).concat("-").concat(uuid.as_str());
        proof {
            assert(id@.subrange(0, node_type.lower_label_spec().len() as int)
                =~= node_type.lower_label_spec());
        }
        NodeInfo {
            node_id: id,
            node_type,
            last_heartbeat: now,
            status: NodeStatus::Active,
            capacity,
            current_load: 0,
            version: String::from_str("0.1.0"),
            metadata: Vec::new(),
        }
    }
}

} // verus!
