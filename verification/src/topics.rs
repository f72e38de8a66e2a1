//! Topic construction and recognition.
//!
//! Every message travels on a topic string.  Rather than string-matching
//! topics wherever one arrives, the engine parses a topic once into a
//! closed set of shapes ([`ParsedTopic`]) and branches on the shape.  The
//! same templates are used to build topics on the sending side, so the
//! subscriber's and the publisher's derivations agree character for
//! character; the round-trip lemmas at the end state exactly that.

use vstd::prelude::*;
use vstd::string::*;

use crate::common::id_wf;
use crate::text::str_eq;

verus! {

/// Whether `p` is a prefix of `s`.
pub open spec fn has_prefix(s: Seq<char>, p: Seq<char>) -> bool {
    s.len() >= p.len() && s.subrange(0, p.len() as int) == p
}

/// The topic a worker publishes its liveness on.
pub open spec fn worker_heartbeat_topic(node_id: Seq<char>) -> Seq<char> {
    "heartbeat/worker/"@ + node_id
}

/// The topic a requester publishes its liveness on.
pub open spec fn requester_heartbeat_topic(node_id: Seq<char>) -> Seq<char> {
    "heartbeat/requester/"@ + node_id
}

/// The topic placement requests arrive on.
pub open spec fn placement_request_topic() -> Seq<char> {
    "routing/request"@
}

/// The topic a placement response for one requester is published on.
pub open spec fn placement_response_topic(requester_id: Seq<char>) -> Seq<char> {
    "routing/response/"@ + requester_id
}

/// The topic a requester sends data requests to its assigned worker on.
pub open spec fn data_request_topic(worker_id: Seq<char>, requester_id: Seq<char>) -> Seq<char> {
    "data/request/"@ + worker_id + "/"@ + requester_id
}

/// The topic a worker answers one requester's data requests on.
pub open spec fn data_response_topic(worker_id: Seq<char>, requester_id: Seq<char>) -> Seq<char> {
    "data/response/"@ + worker_id + "/"@ + requester_id
}

/// The least index holding `/`, or the length if there is none.
pub open spec fn first_slash(s: Seq<char>) -> int
    decreases s.len(),
{
    if s.len() == 0 {
        0
    } else if s[0] == '/' {
        0
    } else {
        1 + first_slash(s.drop_first())
    }
}

/// `first_slash` is within bounds, nothing before it is a slash, and the
/// character at it (if any) is one.
pub proof fn lemma_first_slash_bounds(s: Seq<char>)
    ensures
        0 <= first_slash(s) <= s.len(),
        forall|k: int| 0 <= k < first_slash(s) ==> s[k] != '/',
        first_slash(s) < s.len() ==> s[first_slash(s)] == '/',
    decreases s.len(),
{
    if s.len() > 0 && s[0] != '/' {
        lemma_first_slash_bounds(s.drop_first());
        assert forall|k: int| 0 <= k < first_slash(s) implies s[k] != '/' by {
            if k > 0 {
                assert(s.drop_first()[k - 1] == s[k]);
            }
        }
    }
}

/// Any position with the properties of `lemma_first_slash_bounds` is
/// `first_slash` itself.
pub proof fn lemma_first_slash_agrees(s: Seq<char>, k: int)
    requires
        0 <= k <= s.len(),
        forall|j: int| 0 <= j < k ==> s[j] != '/',
        k < s.len() ==> s[k] == '/',
    ensures
        first_slash(s) == k,
    decreases s.len(),
{
    if k > 0 {
        assert forall|j: int| 0 <= j < k - 1 implies s.drop_first()[j] != '/' by {
            assert(s.drop_first()[j] == s[j + 1]);
        }
        if k - 1 < s.drop_first().len() {
            assert(s.drop_first()[k - 1] == s[k]);
        }
        lemma_first_slash_agrees(s.drop_first(), k - 1);
    }
}

/// Whether a `worker/requester` pair can be read off the given suffix:
/// a non-empty slash-free worker id, one slash, then a well-formed
/// requester id.
pub open spec fn pair_splits(u: Seq<char>) -> bool {
    let k = first_slash(u);
    0 < k < u.len() && id_wf(u.skip(k + 1))
}

/// The shape of one topic, with its extracted parameters, as character
/// sequences.
pub ghost enum TopicShape {
    WorkerHeartbeat { node_id: Seq<char> },
    RequesterHeartbeat { node_id: Seq<char> },
    PlacementRequest,
    PlacementResponse { requester_id: Seq<char> },
    DataRequest { worker_id: Seq<char>, requester_id: Seq<char> },
    DataResponse { worker_id: Seq<char>, requester_id: Seq<char> },
    Other,
}

/// The shape of one topic: which template it instantiates, and with which
/// well-formed parameters.  Topics that fit no template, or carry a
/// malformed id, are `Other`.
pub open spec fn classify_topic(n: Seq<char>) -> TopicShape {
    if n == placement_request_topic() {
        TopicShape::PlacementRequest
    } else if has_prefix(n, "heartbeat/worker/"@) && id_wf(n.skip("heartbeat/worker/"@.len() as int)) {
        TopicShape::WorkerHeartbeat { node_id: n.skip("heartbeat/worker/"@.len() as int) }
    } else if has_prefix(n, "heartbeat/requester/"@) && id_wf(
        n.skip("heartbeat/requester/"@.len() as int),
    ) {
        TopicShape::RequesterHeartbeat { node_id: n.skip("heartbeat/requester/"@.len() as int) }
    } else if has_prefix(n, "routing/response/"@) && id_wf(
        n.skip("routing/response/"@.len() as int),
    ) {
        TopicShape::PlacementResponse { requester_id: n.skip("routing/response/"@.len() as int) }
    } else if has_prefix(n, "data/request/"@) && pair_splits(
        n.skip("data/request/"@.len() as int),
    ) {
        let u = n.skip("data/request/"@.len() as int);
        TopicShape::DataRequest {
            worker_id: u.take(first_slash(u)),
            requester_id: u.skip(first_slash(u) + 1),
        }
    } else if has_prefix(n, "data/response/"@) && pair_splits(
        n.skip("data/response/"@.len() as int),
    ) {
        let u = n.skip("data/response/"@.len() as int);
        TopicShape::DataResponse {
            worker_id: u.take(first_slash(u)),
            requester_id: u.skip(first_slash(u) + 1),
        }
    } else {
        TopicShape::Other
    }
}

/// One parsed topic: the template it instantiates and the ids it carries.
#[derive(Debug)]
pub enum ParsedTopic {
    WorkerHeartbeat { node_id: String },
    RequesterHeartbeat { node_id: String },
    PlacementRequest,
    PlacementResponse { requester_id: String },
    DataRequest { worker_id: String, requester_id: String },
    DataResponse { worker_id: String, requester_id: String },
    Other,
}

impl View for ParsedTopic {
    type V = TopicShape;

    open spec fn view(&self) -> TopicShape {
        match self {
            ParsedTopic::WorkerHeartbeat { node_id } => TopicShape::WorkerHeartbeat {
                node_id: node_id@,
            },
            ParsedTopic::RequesterHeartbeat { node_id } => TopicShape::RequesterHeartbeat {
                node_id: node_id@,
            },
            ParsedTopic::PlacementRequest => TopicShape::PlacementRequest,
            ParsedTopic::PlacementResponse { requester_id } => TopicShape::PlacementResponse {
                requester_id: requester_id@,
            },
            ParsedTopic::DataRequest { worker_id, requester_id } => TopicShape::DataRequest {
                worker_id: worker_id@,
                requester_id: requester_id@,
            },
            ParsedTopic::DataResponse { worker_id, requester_id } => TopicShape::DataResponse {
                worker_id: worker_id@,
                requester_id: requester_id@,
            },
            ParsedTopic::Other => TopicShape::Other,
        }
    }
}

/// A string cannot extend `p2` if it extends `p1` and the two prefixes
/// disagree at some position.
pub proof fn lemma_prefixes_disjoint(s: Seq<char>, p1: Seq<char>, p2: Seq<char>, i: int)
    requires
        has_prefix(s, p1),
        0 <= i < p1.len(),
        i < p2.len(),
        p1[i] != p2[i],
    ensures
        !has_prefix(s, p2),
{
    assert(s.subrange(0, p1.len() as int)[i] == s[i]);
    if has_prefix(s, p2) {
        assert(s.subrange(0, p2.len() as int)[i] == s[i]);
    }
}

/// Whether `p` is a prefix of `t`.
fn starts_with_prefix(t: &str, p: &str) -> (r: bool)
    ensures
        r == has_prefix(t@, p@),
{
    let t_len = t.unicode_len();
    let p_len = p.unicode_len();
    if t_len < p_len {
        return false;
    }
    let mut i: usize = 0;
    while i < p_len
        invariant
            i <= p_len,
            p_len == p@.len(),
            p_len <= t@.len(),
            forall|k: int| 0 <= k < i ==> t@[k] == p@[k],
        decreases p_len - i,
    {
        if t.get_char(i) != p.get_char(i) {
            proof {
                assert(t@.subrange(0, p@.len() as int)[i as int] == t@[i as int]);
            }
            return false;
        }
        i = i + 1;
    }
    proof {
        assert(t@.subrange(0, p@.len() as int) =~= p@);
    }
    true
}

/// Whether `s` is a well-formed id: non-empty and slash-free.
pub fn is_wf_id(s: &str) -> (r: bool)
    ensures
        r == id_wf(s@),
{
    let len = s.unicode_len();
    if len == 0 {
        return false;
    }
    let mut i: usize = 0;
    while i < len
        invariant
            i <= len,
            len == s@.len(),
            forall|k: int| 0 <= k < i ==> s@[k] != '/',
        decreases len - i,
    {
        if s.get_char(i) == '/' {
            return false;
        }
        i = i + 1;
    }
    true
}

/// The least position of `/` in `s`, or the length if there is none.
fn find_slash(s: &str) -> (k: usize)
    ensures
        k == first_slash(s@),
{
    let len = s.unicode_len();
    let mut i: usize = 0;
    while i < len
        invariant
            i <= len,
            len == s@.len(),
            forall|k: int| 0 <= k < i ==> s@[k] != '/',
        decreases len - i,
    {
        if s.get_char(i) == '/' {
            proof {
                lemma_first_slash_agrees(s@, i as int);
            }
            return i;
        }
        i = i + 1;
    }
    proof {
        lemma_first_slash_agrees(s@, len as int);
    }
    len
}

/// Parses one topic into its shape and extracted ids.
pub fn parse_topic(t: &str) -> (r: ParsedTopic)
    ensures
        r@ == classify_topic(t@),
{
    proof {
        reveal_strlit("heartbeat/worker/");
        reveal_strlit("heartbeat/requester/");
        reveal_strlit("routing/request");
        reveal_strlit("routing/response/");
        reveal_strlit("data/request/");
        reveal_strlit("data/response/");
    }
    let t_len = t.unicode_len();
    if str_eq(t, "routing/request") {
        return ParsedTopic::PlacementRequest;
    }
    if starts_with_prefix(t, "heartbeat/worker/") {
        let suffix = t.substring_char(17, t_len);
        if is_wf_id(suffix) {
            return ParsedTopic::WorkerHeartbeat { node_id: String::from_str(suffix) };
        }
        proof {
            lemma_prefixes_disjoint(t@, "heartbeat/worker/"@, "heartbeat/requester/"@, 10);
            lemma_prefixes_disjoint(t@, "heartbeat/worker/"@, "routing/response/"@, 0);
            lemma_prefixes_disjoint(t@, "heartbeat/worker/"@, "data/request/"@, 0);
            lemma_prefixes_disjoint(t@, "heartbeat/worker/"@, "data/response/"@, 0);
        }
        return ParsedTopic::Other;
    }
    if starts_with_prefix(t, "heartbeat/requester/") {
        let suffix = t.substring_char(20, t_len);
        if is_wf_id(suffix) {
            return ParsedTopic::RequesterHeartbeat { node_id: String::from_str(suffix) };
        }
        proof {
            lemma_prefixes_disjoint(t@, "heartbeat/requester/"@, "routing/response/"@, 0);
            lemma_prefixes_disjoint(t@, "heartbeat/requester/"@, "data/request/"@, 0);
            lemma_prefixes_disjoint(t@, "heartbeat/requester/"@, "data/response/"@, 0);
        }
        return ParsedTopic::Other;
    }
    if starts_with_prefix(t, "routing/response/") {
        let suffix = t.substring_char(17, t_len);
        if is_wf_id(suffix) {
            return ParsedTopic::PlacementResponse { requester_id: String::from_str(suffix) };
        }
        proof {
            lemma_prefixes_disjoint(t@, "routing/response/"@, "data/request/"@, 0);
            lemma_prefixes_disjoint(t@, "routing/response/"@, "data/response/"@, 0);
        }
        return ParsedTopic::Other;
    }
    if starts_with_prefix(t, "data/request/") {
        let suffix = t.substring_char(13, t_len);
        let k = find_slash(suffix);
        let suffix_len = suffix.unicode_len();
        if 0 < k && k < suffix_len {
            let requester = suffix.substring_char(k + 1, suffix_len);
            if is_wf_id(requester) {
                let worker = suffix.substring_char(0, k);
                proof {
                    lemma_first_slash_bounds(suffix@);
                }
                return ParsedTopic::DataRequest {
                    worker_id: String::from_str(worker),
                    requester_id: String::from_str(requester),
                };
            }
        }
        proof {
            lemma_prefixes_disjoint(t@, "data/request/"@, "data/response/"@, 7);
        }
        return ParsedTopic::Other;
    }
    if starts_with_prefix(t, "data/response/") {
        let suffix = t.substring_char(14, t_len);
        let k = find_slash(suffix);
        let suffix_len = suffix.unicode_len();
        if 0 < k && k < suffix_len {
            let requester = suffix.substring_char(k + 1, suffix_len);
            if is_wf_id(requester) {
                let worker = suffix.substring_char(0, k);
                proof {
                    lemma_first_slash_bounds(suffix@);
                }
                return ParsedTopic::DataResponse {
                    worker_id: String::from_str(worker),
                    requester_id: String::from_str(requester),
                };
            }
        }
        return ParsedTopic::Other;
    }
    ParsedTopic::Other
}

/// Builds `heartbeat/worker/{node_id}`.
pub fn build_worker_heartbeat_topic(node_id: &str) -> (t: String)
    ensures
        t@ == worker_heartbeat_topic(node_id@),
{
    String::from_str("heartbeat/worker/").concat(node_id)
}

/// Builds `heartbeat/requester/{node_id}`.
pub fn build_requester_heartbeat_topic(node_id: &str) -> (t: String)
    ensures
        t@ == requester_heartbeat_topic(node_id@),
{
    String::from_str("heartbeat/requester/").concat(node_id)
}

/// Builds `routing/request`.
pub fn build_placement_request_topic() -> (t: String)
    ensures
        t@ == placement_request_topic(),
{
    String::from_str("routing/request")
}

/// Builds `routing/response/{requester_id}`.
pub fn build_placement_response_topic(requester_id: &str) -> (t: String)
    ensures
        t@ == placement_response_topic(requester_id@),
{
    String::from_str("routing/response/").concat(requester_id)
}

/// Builds `data/request/{worker_id}/{requester_id}`.
pub fn build_data_request_topic(worker_id: &str, requester_id: &str) -> (t: String)
    ensures
        t@ == data_request_topic(worker_id@, requester_id@),
{
    String::from_str("data/request/").concat(worker_id).concat("/").concat(requester_id)
}

/// Builds `data/response/{worker_id}/{requester_id}`.
pub fn build_data_response_topic(worker_id: &str, requester_id: &str) -> (t: String)
    ensures
        t@ == data_response_topic(worker_id@, requester_id@),
{
    String::from_str("data/response/").concat(worker_id).concat("/").concat(requester_id)
}


/// Parsing the built placement-request topic yields its shape back.
pub proof fn lemma_placement_request_roundtrip()
    ensures
        classify_topic(placement_request_topic()) == TopicShape::PlacementRequest,
{
}

/// Parsing a worker-heartbeat topic built for a well-formed id yields the
/// id back: publisher and subscriber derive the same template.
pub proof fn lemma_worker_heartbeat_roundtrip(id: Seq<char>)
    requires
        id_wf(id),
    ensures
        classify_topic(worker_heartbeat_topic(id)) == (TopicShape::WorkerHeartbeat {
            node_id: id,
        }),
{
    reveal_strlit("heartbeat/worker/");
    reveal_strlit("routing/request");
    let n = worker_heartbeat_topic(id);
    assert(n.len() == 17 + id.len());
    assert(n.subrange(0, 17) =~= "heartbeat/worker/"@);
    assert(n.skip(17) =~= id);
}

/// Parsing a requester-heartbeat topic built for a well-formed id yields
/// the id back.
pub proof fn lemma_requester_heartbeat_roundtrip(id: Seq<char>)
    requires
        id_wf(id),
    ensures
        classify_topic(requester_heartbeat_topic(id)) == (TopicShape::RequesterHeartbeat {
            node_id: id,
        }),
{
    reveal_strlit("heartbeat/requester/");
    reveal_strlit("heartbeat/worker/");
    reveal_strlit("routing/request");
    let n = requester_heartbeat_topic(id);
    assert(n.len() == 20 + id.len());
    assert(n.subrange(0, 20) =~= "heartbeat/requester/"@);
    assert(n.skip(20) =~= id);
    lemma_prefixes_disjoint(n, "heartbeat/requester/"@, "heartbeat/worker/"@, 10);
}

/// Parsing a placement-response topic built for a well-formed requester id
/// yields the id back: the responder's template and the requester's
/// subscription agree character for character.
pub proof fn lemma_placement_response_roundtrip(id: Seq<char>)
    requires
        id_wf(id),
    ensures
        classify_topic(placement_response_topic(id)) == (TopicShape::PlacementResponse {
            requester_id: id,
        }),
{
    reveal_strlit("routing/response/");
    reveal_strlit("heartbeat/worker/");
    reveal_strlit("heartbeat/requester/");
    reveal_strlit("routing/request");
    let n = placement_response_topic(id);
    assert(n.len() == 17 + id.len());
    assert(n.subrange(0, 17) =~= "routing/response/"@);
    assert(n.skip(17) =~= id);
    lemma_prefixes_disjoint(n, "routing/response/"@, "heartbeat/worker/"@, 0);
    lemma_prefixes_disjoint(n, "routing/response/"@, "heartbeat/requester/"@, 0);
}

/// Parsing a data-request topic built for well-formed ids yields both ids
/// back: pair-scoped topics of distinct pairs never collide.
pub proof fn lemma_data_request_roundtrip(worker: Seq<char>, requester: Seq<char>)
    requires
        id_wf(worker),
        id_wf(requester),
    ensures
        classify_topic(data_request_topic(worker, requester)) == (TopicShape::DataRequest {
            worker_id: worker,
            requester_id: requester,
        }),
{
    reveal_strlit("data/request/");
    reveal_strlit("heartbeat/worker/");
    reveal_strlit("heartbeat/requester/");
    reveal_strlit("routing/response/");
    reveal_strlit("routing/request");
    reveal_strlit("/");
    let n = data_request_topic(worker, requester);
    assert(n.len() == 13 + worker.len() + 1 + requester.len());
    assert(n.subrange(0, 13) =~= "data/request/"@);
    lemma_prefixes_disjoint(n, "data/request/"@, "heartbeat/worker/"@, 0);
    lemma_prefixes_disjoint(n, "data/request/"@, "heartbeat/requester/"@, 0);
    lemma_prefixes_disjoint(n, "data/request/"@, "routing/response/"@, 0);
    let u = n.skip(13);
    assert(u =~= worker + "/"@ + requester);
    assert forall|j: int| 0 <= j < worker.len() implies u[j] != '/' by {
        assert(u[j] == worker[j]);
    }
    assert(u[worker.len() as int] == '/');
    lemma_first_slash_agrees(u, worker.len() as int);
    assert(u.skip(worker.len() as int + 1) =~= requester);
    assert(u.take(worker.len() as int) =~= worker);
}

/// Parsing a data-response topic built for well-formed ids yields both
/// ids back.
pub proof fn lemma_data_response_roundtrip(worker: Seq<char>, requester: Seq<char>)
    requires
        id_wf(worker),
        id_wf(requester),
    ensures
        classify_topic(data_response_topic(worker, requester)) == (TopicShape::DataResponse {
            worker_id: worker,
            requester_id: requester,
        }),
{
    reveal_strlit("data/response/");
    reveal_strlit("data/request/");
    reveal_strlit("heartbeat/worker/");
    reveal_strlit("heartbeat/requester/");
    reveal_strlit("routing/response/");
    reveal_strlit("routing/request");
    reveal_strlit("/");
    let n = data_response_topic(worker, requester);
    assert(n.len() == 14 + worker.len() + 1 + requester.len());
    assert(n.subrange(0, 14) =~= "data/response/"@);
    lemma_prefixes_disjoint(n, "data/response/"@, "heartbeat/worker/"@, 0);
    lemma_prefixes_disjoint(n, "data/response/"@, "heartbeat/requester/"@, 0);
    lemma_prefixes_disjoint(n, "data/response/"@, "routing/response/"@, 0);
    lemma_prefixes_disjoint(n, "data/response/"@, "data/request/"@, 7);
    let u = n.skip(14);
    assert(u =~= worker + "/"@ + requester);
    assert forall|j: int| 0 <= j < worker.len() implies u[j] != '/' by {
        assert(u[j] == worker[j]);
    }
    assert(u[worker.len() as int] == '/');
    lemma_first_slash_agrees(u, worker.len() as int);
    assert(u.skip(worker.len() as int + 1) =~= requester);
    assert(u.take(worker.len() as int) =~= worker);
}

} // verus!
