//! Request dispatch and the per-connection state machine.
//!
//! One connection is driven as a state machine: bytes arrive and are
//! parsed into requests, each request is resolved against the router (an
//! unknown method becomes a 405 and a route miss a 404, bypassing handler
//! invocation), the response is serialized, and only after its bytes are
//! fully written is the next request taken up. The machine makes no
//! decision that depends on I/O itself: the caller feeds it events and
//! performs the actions it returns.

use vstd::prelude::*;

use crate::http1::RawRequest;
use crate::request::Request;
use crate::response::Response;
use crate::router::Router;

verus! {

use crate::http1::req_model;
use crate::http1::spec_parse;
use crate::method::Method;
use crate::method::method_token;
use crate::response::response_wire;
use crate::response::headers_view;
use crate::router::SegPat;
use crate::router::beats;
use crate::router::captures_of;
use crate::router::pairs_view;
use crate::router::pat_matches;
use crate::router::router_has;
use crate::router::router_wf;
use crate::router::split_segs;
use crate::status::Status;

/// A bare response carrying only a status code.
pub open spec fn bare_status(resp: Response, code: u16) -> bool {
    resp.status == code && resp.headers@.len() == 0 && resp.body@.len() == 0
}

/// The outcome of resolving one parsed request: a handler to invoke with
/// its assembled request, or a response synthesized without any handler.
pub enum Dispatched<'a, H> {
    Invoke(&'a H, Request),
    Respond(Response),
}

/// What [`dispatch`] guarantees: a bare 405 exactly when the method token
/// is unrecognized, a bare 404 when the method is known but no route
/// matches, and otherwise the precedence-maximal matching route's handler
/// with the assembled request.
pub open spec fn dispatch_post<'a, H>(router: Router<H>, raw: RawRequest, r: Dispatched<'a, H>) -> bool {
    let ts = split_segs(raw.path@);
    match r {
        Dispatched::Respond(resp) => {
            ||| (bare_status(resp, 405) && (forall|m: Method|
                method_token(m) != raw.method_token@))
            ||| (bare_status(resp, 404) && (exists|m: Method|
                #[trigger] method_token(m) == raw.method_token@ && (forall|
                    q: Seq<SegPat>,
                    h2: H,
                | !(#[trigger] router_has(router, m, q, h2) && pat_matches(q, ts)))))
        },
        Dispatched::Invoke(h, req) => {
            &&& method_token(req.method) == raw.method_token@
            &&& req.path == raw.path
            &&& req.headers == raw.headers
            &&& req.body == raw.body
            &&& exists|p: Seq<SegPat>|
                {
                    &&& #[trigger] router_has(router, req.method, p, *h)
                    &&& pat_matches(p, ts)
                    &&& pairs_view(req.params@) == captures_of(p, ts)
                    &&& forall|q: Seq<SegPat>, h2: H|
                        #[trigger] router_has(router, req.method, q, h2) && pat_matches(
                            q,
                            ts,
                        ) && q != p ==> beats(p, q)
                }
        },
    }
}

/// Resolves one parsed request against the router.
///
/// An unrecognized method token yields a bare 405; a recognized method
/// with no matching route yields a bare 404, without assembling a request
/// or touching a handler. Otherwise the precedence-maximal matching
/// route's handler is returned with the request, its captures bound.
#[verifier::rlimit(50)]
pub fn dispatch<'a, H>(router: &'a Router<H>, raw: RawRequest) -> (r: Dispatched<'a, H>)
    requires
        router_wf(*router),
    ensures
        dispatch_post(*router, raw, r),
{
    let ghost ts = split_segs(raw.path@);
    let method = match Method::from_token(raw.method_token.as_slice()) {
        Some(m) => m,
        None => {
            let resp = Response::status(Status::MethodNotAllowed);
            proof {
                assert(bare_status(resp, 405));
                assert(forall|m: Method| method_token(m) != raw.method_token@);
            }
            return Dispatched::Respond(resp);
        },
    };
    match router.lookup_bytes(method, raw.path.as_slice()) {
        Some(hc) => {
            let (h, params) = hc;
            let ghost params_seq = params@;
            let req = Request::new(method, raw.path, raw.headers, raw.body, params);
            proof {
                let p0 = choose|p: Seq<SegPat>|
                    {
                        &&& #[trigger] router_has(*router, method, p, *h)
                        &&& pat_matches(p, ts)
                        &&& pairs_view(params_seq) == captures_of(p, ts)
                        &&& forall|q: Seq<SegPat>, h2: H|
                            #[trigger] router_has(*router, method, q, h2) && pat_matches(q, ts)
                                && q != p ==> beats(p, q)
                    };
                assert(router_has(*router, req.method, p0, *h));
            }
            let r2 = Dispatched::Invoke(h, req);
            proof {
                assert(r2 is Invoke);
                assert(r2->Invoke_0 == h);
                assert(r2->Invoke_1 == req);
                assert(dispatch_post(*router, raw, r2));
            }
            r2
        },
        None => {
            let resp = Response::status(Status::NotFound);
            proof {
                assert(bare_status(resp, 404));
                assert(method_token(method) == raw.method_token@);
                assert(forall|q: Seq<SegPat>, h2: H|
                    !(#[trigger] router_has(*router, method, q, h2) && pat_matches(q, ts)));
            }
            let r2 = Dispatched::Respond(resp);
            proof {
                assert(dispatch_post(*router, raw, r2));
            }
            r2
        },
    }
}

/// The phases of one connection.
pub enum ConnState {
    Receiving,
    AwaitingHandler,
    Writing,
    Closed,
}

/// What the transport or the handler reports to the machine.
pub enum ConnEvent {
    Bytes(Vec<u8>),
    Eof,
    ResponseReady(Response),
    WriteDone,
    IoError,
}

/// What the caller must do next.
pub enum ConnAction {
    Read,
    Dispatch(RawRequest),
    Write(Vec<u8>),
    Close,
}

/// One connection: its phase, the bytes received but not yet consumed,
/// and ghost counts of the requests taken up and the responses fully
/// written.
pub struct Conn {
    pub state: ConnState,
    pub buf: Vec<u8>,
    pub begun: Ghost<nat>,
    pub served: Ghost<nat>,
}

/// The connection invariant: while a request is being handled or its
/// response written, exactly one more request has been taken up than has
/// been answered; between requests the counts agree.
pub open spec fn conn_wf(c: Conn) -> bool {
    match c.state {
        ConnState::Receiving => c.begun@ == c.served@,
        ConnState::AwaitingHandler => c.begun@ == c.served@ + 1,
        ConnState::Writing => c.begun@ == c.served@ + 1,
        ConnState::Closed => c.begun@ >= c.served@,
    }
}

/// A fresh connection.
pub fn conn_new() -> (c: Conn)
    ensures
        conn_wf(c),
        c.state is Receiving,
        c.buf@.len() == 0,
        c.begun@ == 0,
        c.served@ == 0,
{
    Conn { state: ConnState::Receiving, buf: Vec::new(), begun: Ghost(0), served: Ghost(0) }
}

/// The exact transition relation of [`conn_step`].
pub open spec fn conn_next(c: Conn, ev: ConnEvent, c2: Conn, act: ConnAction) -> bool {
    match (c.state, ev) {
        (ConnState::Receiving, ConnEvent::Bytes(data)) => {
            let nb = c.buf@ + data@;
            match spec_parse(nb) {
                Some(rn) => {
                    &&& c2.state is AwaitingHandler
                    &&& c2.buf@ == nb.skip(rn.1)
                    &&& (act matches ConnAction::Dispatch(raw) && req_model(raw) == rn.0)
                    &&& c2.begun@ == c.begun@ + 1
                    &&& c2.served@ == c.served@
                },
                None => {
                    &&& c2.state is Receiving
                    &&& c2.buf@ == nb
                    &&& act is Read
                    &&& c2.begun@ == c.begun@
                    &&& c2.served@ == c.served@
                },
            }
        },
        (ConnState::Receiving, ConnEvent::Eof) => {
            &&& c2.state is Closed
            &&& act is Close
            &&& c2.begun@ == c.begun@
            &&& c2.served@ == c.served@
        },
        (ConnState::AwaitingHandler, ConnEvent::ResponseReady(resp)) => {
            &&& c2.state is Writing
            &&& c2.buf@ == c.buf@
            &&& (act matches ConnAction::Write(bytes) && bytes@ == response_wire(
                resp.status,
                headers_view(resp.headers@),
                resp.body@,
            ))
            &&& c2.begun@ == c.begun@
            &&& c2.served@ == c.served@
        },
        (ConnState::Writing, ConnEvent::WriteDone) => {
            &&& c2.served@ == c.served@ + 1
            &&& match spec_parse(c.buf@) {
                Some(rn) => {
                    &&& c2.state is AwaitingHandler
                    &&& c2.buf@ == c.buf@.skip(rn.1)
                    &&& (act matches ConnAction::Dispatch(raw) && req_model(raw) == rn.0)
                    &&& c2.begun@ == c.begun@ + 1
                },
                None => {
                    &&& c2.state is Receiving
                    &&& c2.buf@ == c.buf@
                    &&& act is Read
                    &&& c2.begun@ == c.begun@
                },
            }
        },
        _ => {
            &&& c2.state is Closed
            &&& act is Close
            &&& c2.begun@ == c.begun@
            &&& c2.served@ == c.served@
        },
    }
}

/// Advances one connection by one event; total over all events, so an
/// I/O error or a protocol misuse by the caller closes the connection
/// rather than wedging it.
pub fn conn_step(c: Conn, ev: ConnEvent) -> (r: (Conn, ConnAction))
    requires
        conn_wf(c),
    ensures
        conn_next(c, ev, r.0, r.1),
        conn_wf(r.0),
{
    match (c.state, ev) {
        (ConnState::Receiving, ConnEvent::Bytes(data)) => {
            let mut buf = c.buf;
            let mut data = data;
            buf.append(&mut data);
            conn_try_parse(buf, c.begun, c.served)
        },
        (ConnState::Receiving, ConnEvent::Eof) => {
            (
                Conn { state: ConnState::Closed, buf: c.buf, begun: c.begun, served: c.served },
                ConnAction::Close,
            )
        },
        (ConnState::AwaitingHandler, ConnEvent::ResponseReady(resp)) => {
            let mut bytes: Vec<u8> = Vec::new();
            resp.write_to(&mut bytes);
            (
                Conn { state: ConnState::Writing, buf: c.buf, begun: c.begun, served: c.served },
                ConnAction::Write(bytes),
            )
        },
        (ConnState::Writing, ConnEvent::WriteDone) => {
            let ghost served2 = c.served@ + 1;
            conn_try_parse(c.buf, c.begun, Ghost(served2))
        },
        (_, _) => {
            (
                Conn { state: ConnState::Closed, buf: c.buf, begun: c.begun, served: c.served },
                ConnAction::Close,
            )
        },
    }
}

/// Takes the next request off the front of the buffer, if one is
/// complete, and moves the connection on accordingly.
fn conn_try_parse(buf: Vec<u8>, begun: Ghost<nat>, served: Ghost<nat>) -> (r: (Conn, ConnAction))
    requires
        begun@ == served@,
    ensures
        conn_wf(r.0),
        ({
            match spec_parse(buf@) {
                Some(rn) => {
                    &&& r.0.state is AwaitingHandler
                    &&& r.0.buf@ == buf@.skip(rn.1)
                    &&& (r.1 matches ConnAction::Dispatch(raw) && req_model(raw) == rn.0)
                    &&& r.0.begun@ == begun@ + 1
                    &&& r.0.served@ == served@
                },
                None => {
                    &&& r.0.state is Receiving
                    &&& r.0.buf@ == buf@
                    &&& r.1 is Read
                    &&& r.0.begun@ == begun@
                    &&& r.0.served@ == served@
                },
            }
        }),
{
    match crate::http1::parse_request(buf.as_slice()) {
        Some(rn) => {
            let (raw, n) = rn;
            let rest = crate::router::sub_bytes(buf.as_slice(), n, buf.len());
            proof {
                assert(rest@ =~= buf@.skip(n as int));
            }
            (
                Conn {
                    state: ConnState::AwaitingHandler,
                    buf: rest,
                    begun: Ghost(begun@ + 1),
                    served,
                },
                ConnAction::Dispatch(raw),
            )
        },
        None => {
            (
                Conn { state: ConnState::Receiving, buf, begun, served },
                ConnAction::Read,
            )
        },
    }
}

/// Within one connection, requests are handled strictly one after
/// another: the machine hands out a request for dispatch only when every
/// request taken up before it has had its response fully written, and the
/// connection invariant is preserved by every step. Together with
/// [`conn_next`], under which a `Write` action arises only from the
/// response to the one outstanding request, the bytes of the `N`th
/// response are on the wire before the `N+1`st request is taken up.
pub proof fn lemma_sequential_requests(c: Conn, ev: ConnEvent, c2: Conn, act: ConnAction)
    requires
        conn_wf(c),
        conn_next(c, ev, c2, act),
    ensures
        conn_wf(c2),
        act is Dispatch ==> c2.begun@ == c.begun@ + 1 && c2.served@ == c.begun@ && c2.begun@
            == c2.served@ + 1,
{
    match (c.state, ev) {
        (ConnState::Receiving, ConnEvent::Bytes(data)) => {},
        (ConnState::Writing, ConnEvent::WriteDone) => {},
        _ => {},
    }
}

/// A connection history: each step is a [`conn_next`] transition from the
/// state before it to the state after it.
pub open spec fn conn_trace(
    evs: Seq<ConnEvent>,
    states: Seq<Conn>,
    acts: Seq<ConnAction>,
) -> bool {
    &&& states.len() == evs.len() + 1
    &&& acts.len() == evs.len()
    &&& forall|k: int|
        0 <= k < evs.len() ==> conn_next(states[k], evs[k], states[k + 1], #[trigger] acts[k])
}

/// Sequential ordering over a whole connection history: starting from a
/// well-formed state, every state stays well formed, and at every step
/// that takes up a request, all requests taken up earlier have had their
/// responses fully written.
pub proof fn lemma_trace_sequential(evs: Seq<ConnEvent>, states: Seq<Conn>, acts: Seq<ConnAction>)
    requires
        conn_trace(evs, states, acts),
        conn_wf(states[0]),
    ensures
        forall|k: int| 0 <= k < states.len() ==> conn_wf(#[trigger] states[k]),
        forall|k: int|
            0 <= k < acts.len() && #[trigger] acts[k] is Dispatch ==> states[k + 1].served@
                == states[k].begun@ && states[k + 1].begun@ == states[k].begun@ + 1,
    decreases evs.len(),
{
    if evs.len() > 0 {
        lemma_sequential_requests(states[0], evs[0], states[1], acts[0]);
        let evs1 = evs.drop_first();
        let states1 = states.drop_first();
        let acts1 = acts.drop_first();
        assert(conn_trace(evs1, states1, acts1)) by {
            assert forall|k: int|
                0 <= k < evs1.len() implies conn_next(
                states1[k],
                evs1[k],
                states1[k + 1],
                #[trigger] acts1[k],
            ) by {
                assert(acts1[k] == acts[k + 1]);
                assert(conn_next(states[k + 1], evs[k + 1], states[k + 2], acts[k + 1]));
            }
        }
        lemma_trace_sequential(evs1, states1, acts1);
        assert forall|k: int| 0 <= k < states.len() implies conn_wf(#[trigger] states[k]) by {
            if k > 0 {
                assert(states[k] == states1[k - 1]);
            }
        }
        assert forall|k: int|
            0 <= k < acts.len() && #[trigger] acts[k] is Dispatch implies states[k + 1].served@
            == states[k].begun@ && states[k + 1].begun@ == states[k].begun@ + 1 by {
            if k > 0 {
                assert(acts1[k - 1] == acts[k]);
                assert(states1[k - 1] == states[k]);
                assert(states1[k] == states[k + 1]);
            }
        }
    }
}

} // verus!
