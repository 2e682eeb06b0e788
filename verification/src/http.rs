use crate::graph::NodeId;
use std::collections::HashMap;
use std::sync::mpsc::Receiver;
use std::sync::mpsc::TryRecvError;
use vstd::prelude::*;

verus! {

#[verifier::external_type_specification]
#[verifier::external_body]
#[verifier::reject_recursive_types(T)]
pub struct ExReceiver<T>(Receiver<T>);

/// The answer to an HTTP request: the status code (0 when the request failed
/// before any response) and the body (or the error text).
#[derive(Debug)]
pub struct HttpResponse {
    pub status: u16,
    pub body: String,
}

/// Work the user interface hands to the HTTP manager.
pub enum HttpAction {
    SendRequest {
        node_id: NodeId,
        url: String,
        method: String,
        headers: Vec<(String, String)>,
        body: String,
    },
}

/// The text `s` in upper case, as `str::to_uppercase` gives it.
pub uninterp spec fn upper_text(s: Seq<char>) -> Seq<char>;

/// `str::to_uppercase`: its result is named by `upper_text` of the argument.
#[verifier::external_body]
fn to_upper(s: &str) -> (r: String)
    ensures
        r@ == upper_text(s@),
{
    s.to_uppercase()
}

/// How a request is sent: as a GET (when the method reads `GET` in upper case)
/// or as a POST, and whether the body goes with it (never with a GET, and only
/// when it is not empty).
pub struct RequestShape {
    pub use_get: bool,
    pub send_body: bool,
}

/// The shape of a request whose method, in upper case, is `upper_method`, with
/// body `body`.
pub fn shape_for(upper_method: &str, body: &str) -> (r: RequestShape)
    ensures
        r.use_get == (upper_method@ == "GET"@),
        r.send_body == (!r.use_get && body@.len() > 0),
{
    let use_get = crate::text::str_eq(upper_method, "GET");
    RequestShape { use_get, send_body: !use_get && !body.is_empty() }
}

/// The shape of a request with method `method` and body `body`.
pub fn request_shape(method: &str, body: &str) -> (r: RequestShape)
    ensures
        r.use_get == (upper_text(method@) == "GET"@),
        r.send_body == (!r.use_get && body@.len() > 0),
{
    let upper = to_upper(method);
    shape_for(upper.as_str(), body)
}

/// What a non-blocking receive found.
pub enum Received<T> {
    /// A value had arrived.
    Value(T),
    /// Nothing yet; the sender is still there.
    Empty,
    /// The sender is gone and nothing will arrive.
    Disconnected,
}

/// `Receiver::try_recv`: what arrives depends on the worker thread, so nothing
/// is stated of the outcome.
#[verifier::external_body]
fn try_receive<T>(rx: &Receiver<T>) -> Received<T> {
    match rx.try_recv() {
        Ok(v) => Received::Value(v),
        Err(TryRecvError::Empty) => Received::Empty,
        Err(TryRecvError::Disconnected) => Received::Disconnected,
    }
}

struct PendingRequest {
    rx: Receiver<HttpResponse>,
}

/// The requests in flight, one per node, each with the channel its worker answers on.
pub struct HttpManager {
    pending: HashMap<NodeId, PendingRequest>,
}

impl HttpManager {
    /// The nodes with a request in flight.
    pub closed spec fn pending_nodes(&self) -> Set<NodeId> {
        self.pending@.dom()
    }

    /// The channel on which the answer for pending node `n` arrives.
    pub closed spec fn channel_of(&self, n: NodeId) -> Receiver<HttpResponse> {
        self.pending@[n].rx
    }

    pub fn new() -> (r: HttpManager)
        ensures
            r.pending_nodes() == Set::<NodeId>::empty(),
    {
        HttpManager { pending: HashMap::new() }
    }

    /// Records that node `node_id` now waits for an answer on `rx`, replacing any
    /// request it had in flight.
    pub fn register(&mut self, node_id: NodeId, rx: Receiver<HttpResponse>)
        ensures
            final(self).pending_nodes() == old(self).pending_nodes().insert(node_id),
            final(self).pending_nodes() == pending_step(old(self).pending_nodes(), RequestEvent::Started(node_id)),
            final(self).channel_of(node_id) == rx,
            forall|n: NodeId|
                n != node_id && old(self).pending_nodes().contains(n) ==> #[trigger] final(self).channel_of(n) == old(
                    self,
                ).channel_of(n),
    {
        broadcast use vstd::std_specs::hash::group_hash_axioms;

        self.pending.insert(node_id, PendingRequest { rx });
    }

    /// Applies what a receive for node `node_id` found: an arrived response is
    /// returned and ends the request; a vanished worker ends the request with no
    /// response; otherwise the request stays in flight.
    pub fn settle(&mut self, node_id: NodeId, outcome: Received<HttpResponse>) -> (r: Option<HttpResponse>)
        ensures
            match outcome {
                Received::Value(v) => r == Some(v) && final(self).pending_nodes() == old(
                    self,
                ).pending_nodes().remove(node_id),
                Received::Empty => r is None && final(self).pending_nodes() == old(self).pending_nodes(),
                Received::Disconnected => r is None && final(self).pending_nodes() == old(
                    self,
                ).pending_nodes().remove(node_id),
            },
            final(self).pending_nodes() == pending_step(old(self).pending_nodes(), received_event(node_id, outcome)),
            forall|n: NodeId| #[trigger] final(self).pending_nodes().contains(n) ==> final(self).channel_of(n) == old(
                self,
            ).channel_of(n),
    {
        broadcast use vstd::std_specs::hash::group_hash_axioms;

        match outcome {
            Received::Value(resp) => {
                let _ = self.pending.remove(&node_id);
                Some(resp)
            },
            Received::Empty => None,
            Received::Disconnected => {
                let _ = self.pending.remove(&node_id);
                None
            },
        }
    }

    /// Checks, without blocking, whether node `node_id`'s request has been answered.
    /// A node with nothing in flight gets `None`. Otherwise an answer ends the
    /// request; `None` means it is still in flight or its worker vanished (which
    /// also ends it).
    pub fn poll(&mut self, node_id: NodeId) -> (r: Option<HttpResponse>)
        ensures
            !old(self).pending_nodes().contains(node_id) ==> r is None && final(self).pending_nodes()
                == old(self).pending_nodes(),
            r is Some ==> final(self).pending_nodes() == old(self).pending_nodes().remove(node_id),
            r is None ==> final(self).pending_nodes() == old(self).pending_nodes()
                || final(self).pending_nodes() == old(self).pending_nodes().remove(node_id),
            forall|n: NodeId| #[trigger] final(self).pending_nodes().contains(n) ==> final(self).channel_of(n) == old(
                self,
            ).channel_of(n),
    {
        broadcast use vstd::std_specs::hash::group_hash_axioms;

        let outcome = match self.pending.get(&node_id) {
            Some(p) => try_receive(&p.rx),
            None => {
                return None;
            },
        };
        self.settle(node_id, outcome)
    }

    /// Whether node `node_id` has a request in flight.
    pub fn is_pending(&self, node_id: NodeId) -> (r: bool)
        ensures
            r == self.pending_nodes().contains(node_id),
    {
        broadcast use vstd::std_specs::hash::group_hash_axioms;

        self.pending.contains_key(&node_id)
    }
}

/// What happens to a node's request, as the HTTP manager sees it.
pub enum RequestEvent {
    /// A request is sent for the node (`register`).
    Started(NodeId),
    /// Its answer arrives (`settle` or `poll` with a response).
    Answered(NodeId),
    /// A check finds nothing yet.
    Waiting(NodeId),
    /// A check finds its worker gone.
    Vanished(NodeId),
}

/// The nodes with a request in flight after one event.
pub open spec fn pending_step(s: Set<NodeId>, e: RequestEvent) -> Set<NodeId> {
    match e {
        RequestEvent::Started(n) => s.insert(n),
        RequestEvent::Answered(n) => s.remove(n),
        RequestEvent::Waiting(_) => s,
        RequestEvent::Vanished(n) => s.remove(n),
    }
}

/// The nodes with a request in flight after the events, in order.
pub open spec fn pending_after(s: Set<NodeId>, es: Seq<RequestEvent>) -> Set<NodeId>
    decreases es.len(),
{
    if es.len() == 0 {
        s
    } else {
        pending_step(pending_after(s, es.drop_last()), es.last())
    }
}

/// Whether the event ends node `n`'s request.
pub open spec fn ends_request(e: RequestEvent, n: NodeId) -> bool {
    e == RequestEvent::Answered(n) || e == RequestEvent::Vanished(n)
}

/// The event a receive outcome for node `n` is.
pub open spec fn received_event(n: NodeId, outcome: Received<HttpResponse>) -> RequestEvent {
    match outcome {
        Received::Value(_) => RequestEvent::Answered(n),
        Received::Empty => RequestEvent::Waiting(n),
        Received::Disconnected => RequestEvent::Vanished(n),
    }
}

/// Starting from a manager with nothing in flight (`HttpManager::new`), a node is
/// pending exactly when a request was started for it and no answer or vanished
/// worker has ended it since.
pub proof fn law_pending_until_answered(es: Seq<RequestEvent>, n: NodeId)
    ensures
        pending_after(Set::empty(), es).contains(n) <==> exists|i: int|
            0 <= i < es.len() && es[i] == RequestEvent::Started(n) && forall|j: int|
                i < j < es.len() ==> !ends_request(#[trigger] es[j], n),
    decreases es.len(),
{
    if es.len() > 0 {
        let p = es.drop_last();
        let e = es.last();
        let last = es.len() - 1;
        law_pending_until_answered(p, n);
        if e == RequestEvent::Started(n) {
            assert(es[last] == RequestEvent::Started(n));
        } else if ends_request(e, n) {
            assert forall|i: int| 0 <= i < es.len() && es[i] == RequestEvent::Started(n) implies !(forall|j: int|
                i < j < es.len() ==> !ends_request(#[trigger] es[j], n)) by {
                assert(i < last);
                assert(ends_request(es[last], n));
            }
        } else {
            assert(pending_after(Set::empty(), es).contains(n) == pending_after(Set::empty(), p).contains(n));
            if pending_after(Set::empty(), p).contains(n) {
                let i = choose|i: int|
                    0 <= i < p.len() && p[i] == RequestEvent::Started(n) && forall|j: int|
                        i < j < p.len() ==> !ends_request(#[trigger] p[j], n);
                assert(es[i] == RequestEvent::Started(n));
                assert forall|j: int| i < j < es.len() implies !ends_request(#[trigger] es[j], n) by {
                    if j < last {
                        assert(es[j] == p[j]);
                    }
                }
            } else {
                assert forall|i: int| 0 <= i < es.len() && es[i] == RequestEvent::Started(n) implies !(forall|j: int|
                    i < j < es.len() ==> !ends_request(#[trigger] es[j], n)) by {
                    assert(i < last);
                    assert(p[i] == RequestEvent::Started(n));
                    let j = choose|j: int| i < j < p.len() && ends_request(#[trigger] p[j], n);
                    assert(es[j] == p[j]);
                }
            }
        }
    }
}

/// What an answered AI request does to its node.
pub enum AiOutcome {
    /// A success status: the body is to be read as a reply of `provider`, and the
    /// node's status becomes `done`.
    Success { provider: String },
    /// Any other status: the body is shown as it is and the status reads
    /// `error: <code>`.
    Failure { response: String, status: String },
}

/// How an AI request node takes an answer with status `status` and body `body`:
/// a 2xx status is a success, read as a reply of `provider` or, when none is set,
/// of the provider the body's shape shows (an Anthropic reply starts its content
/// list with a typed block, anything else is read as OpenAI's).
pub fn ai_response_outcome(provider: &str, status: u16, body: String) -> (r: AiOutcome)
    ensures
        200 <= status < 300 ==> (r matches AiOutcome::Success { provider: p } && p@ == (if provider@.len() == 0 {
            if crate::eval::text_contains(body@, "\"content\":[{\"type\""@) {
                "anthropic"@
            } else {
                "openai"@
            }
        } else {
            provider@
        })),
        !(200 <= status < 300) ==> (r matches AiOutcome::Failure { response, status: s } && response@ == body@ && s@
            == "error: "@ + crate::text::decimal(status as nat)),
{
    if 200 <= status && status < 300 {
        let p = if provider.is_empty() {
            if crate::eval::contains_text(body.as_str(), "\"content\":[{\"type\"") {
                "anthropic".to_owned()
            } else {
                "openai".to_owned()
            }
        } else {
            provider.to_owned()
        };
        AiOutcome::Success { provider: p }
    } else {
        AiOutcome::Failure { response: body, status: crate::text::labelled("error: ", status as u64) }
    }
}

/// The status text an HTTP request node shows: the status code in decimal.
pub fn http_status_text(status: u16) -> (r: String)
    ensures
        r@ == crate::text::decimal(status as nat),
{
    let r = crate::text::labelled("", status as u64);
    proof {
        reveal_strlit("");
        assert(""@ + crate::text::decimal(status as nat) =~= crate::text::decimal(status as nat));
    }
    r
}

} // verus!
