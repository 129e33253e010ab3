//! Dispatch, the connection state machine, and the serve lifecycle.

use astor::http1::parse_request;
use astor::lifecycle::{serve_new, serve_step};
use astor::server::{conn_new, conn_step, dispatch};
use astor::{
    Conn, ConnAction, ConnEvent, Dispatched, IntoResponse, Method, Response, Router, ServeAction,
    ServeEvent, ServePhase, Status,
};

fn parse_one(bytes: &[u8]) -> astor::RawRequest {
    let (raw, n) = parse_request(bytes).unwrap();
    assert_eq!(n, bytes.len());
    raw
}

#[test]
fn dispatch_unknown_method_gives_405() {
    let router: Router<u32> = Router::new().get("/x", 1);
    let raw = parse_one(b"FROB /x HTTP/1.1\r\n\r\n");
    match dispatch(&router, raw) {
        Dispatched::Respond(resp) => {
            assert_eq!(resp.status, 405);
            assert!(resp.body.is_empty());
            assert!(resp.headers.is_empty());
        },
        Dispatched::Invoke(_, _) => panic!("unknown method must not reach a handler"),
    }
}

#[test]
fn dispatch_unregistered_path_gives_404() {
    let router: Router<u32> = Router::new().get("/x", 1);
    let raw = parse_one(b"GET /nope HTTP/1.1\r\n\r\n");
    match dispatch(&router, raw) {
        Dispatched::Respond(resp) => {
            assert_eq!(resp.status, 404);
            assert!(resp.body.is_empty());
        },
        Dispatched::Invoke(_, _) => panic!("a route miss must not reach a handler"),
    }
}

#[test]
fn dispatch_resolves_handler_with_captures() {
    let router: Router<u32> = Router::new().get("/users/:id", 7);
    let raw = parse_one(b"GET /users/42 HTTP/1.1\r\nhost: e\r\n\r\n");
    match dispatch(&router, raw) {
        Dispatched::Invoke(h, req) => {
            assert_eq!(*h, 7);
            assert_eq!(req.method(), Method::Get);
            assert_eq!(req.path(), &b"/users/42".to_vec());
            assert_eq!(req.param("id"), Some(&b"42".to_vec()));
            assert_eq!(req.headers(), &vec![(b"host".to_vec(), b"e".to_vec())]);
        },
        Dispatched::Respond(_) => panic!("registered route must dispatch"),
    }
}

#[test]
fn dispatch_wrong_method_gives_404() {
    let router: Router<u32> = Router::new().get("/x", 1);
    let raw = parse_one(b"POST /x HTTP/1.1\r\n\r\n");
    match dispatch(&router, raw) {
        Dispatched::Respond(resp) => assert_eq!(resp.status, 404),
        Dispatched::Invoke(_, _) => panic!("method tries are disjoint"),
    }
}

fn expect_dispatch(r: (Conn, ConnAction)) -> (Conn, astor::RawRequest) {
    match r.1 {
        ConnAction::Dispatch(raw) => (r.0, raw),
        _ => panic!("expected a request to dispatch"),
    }
}

fn expect_write(r: (Conn, ConnAction)) -> (Conn, Vec<u8>) {
    match r.1 {
        ConnAction::Write(bytes) => (r.0, bytes),
        _ => panic!("expected a response write"),
    }
}

#[test]
fn conn_parses_and_loops() {
    let c = conn_new();
    let (c, raw) = expect_dispatch(conn_step(
        c,
        ConnEvent::Bytes(b"GET /x HTTP/1.1\r\n\r\n".to_vec()),
    ));
    assert_eq!(raw.path, b"/x".to_vec());
    let (c, bytes) = expect_write(conn_step(c, ConnEvent::ResponseReady(Response::text("ok"))));
    assert!(bytes.starts_with(b"HTTP/1.1 200 OK\r\n"));
    assert!(bytes.ends_with(b"\r\n\r\nok"));
    // after the write completes the connection is ready for the next request
    let (c, act) = conn_step(c, ConnEvent::WriteDone);
    assert!(matches!(act, ConnAction::Read));
    // and a clean end-of-stream closes it
    let (_, act) = conn_step(c, ConnEvent::Eof);
    assert!(matches!(act, ConnAction::Close));
}

#[test]
fn conn_handles_partial_reads() {
    let c = conn_new();
    let (c, act) = conn_step(c, ConnEvent::Bytes(b"GET /x HT".to_vec()));
    assert!(matches!(act, ConnAction::Read));
    let (_, raw) = expect_dispatch(conn_step(c, ConnEvent::Bytes(b"TP/1.1\r\n\r\n".to_vec())));
    assert_eq!(raw.method_token, b"GET".to_vec());
}

#[test]
fn conn_pipelined_requests_stay_framed_and_ordered() {
    // both requests arrive in one read; the second is dispatched only
    // after the first response has been fully written
    let c = conn_new();
    let (c, raw1) = expect_dispatch(conn_step(
        c,
        ConnEvent::Bytes(b"POST /a HTTP/1.1\r\ncontent-length: 5\r\n\r\nHELLOGET /b HTTP/1.1\r\n\r\n".to_vec()),
    ));
    assert_eq!(raw1.path, b"/a".to_vec());
    assert_eq!(raw1.body, b"HELLO".to_vec());
    let (c, _bytes) = expect_write(conn_step(c, ConnEvent::ResponseReady(Response::text("one"))));
    // the second request comes out only at WriteDone, never before
    let (c, raw2) = expect_dispatch(conn_step(c, ConnEvent::WriteDone));
    assert_eq!(raw2.path, b"/b".to_vec());
    assert!(raw2.body.is_empty());
    let (c, _) = expect_write(conn_step(c, ConnEvent::ResponseReady(Response::text("two"))));
    let (_, act) = conn_step(c, ConnEvent::WriteDone);
    assert!(matches!(act, ConnAction::Read));
}

#[test]
fn conn_stays_open_after_unknown_method() {
    // a FROB request yields a 405 and the connection serves the next
    // request normally
    let router: Router<u32> = Router::new().get("/x", 1);
    let c = conn_new();
    let (c, raw) = expect_dispatch(conn_step(
        c,
        ConnEvent::Bytes(b"FROB /x HTTP/1.1\r\n\r\n".to_vec()),
    ));
    let resp = match dispatch(&router, raw) {
        Dispatched::Respond(resp) => resp,
        Dispatched::Invoke(_, _) => panic!("FROB must not dispatch"),
    };
    assert_eq!(resp.status, 405);
    let (c, bytes) = expect_write(conn_step(c, ConnEvent::ResponseReady(resp)));
    assert_eq!(bytes, b"HTTP/1.1 405 Method Not Allowed\r\ncontent-length: 0\r\n\r\n".to_vec());
    let (c, act) = conn_step(c, ConnEvent::WriteDone);
    assert!(matches!(act, ConnAction::Read));
    let (_, raw) = expect_dispatch(conn_step(
        c,
        ConnEvent::Bytes(b"GET /x HTTP/1.1\r\n\r\n".to_vec()),
    ));
    match dispatch(&router, raw) {
        Dispatched::Invoke(h, _) => assert_eq!(*h, 1),
        Dispatched::Respond(_) => panic!("valid follow-up request must dispatch"),
    }
}

#[test]
fn conn_closes_on_io_error() {
    let c = conn_new();
    let (c, _) = expect_dispatch(conn_step(
        c,
        ConnEvent::Bytes(b"GET /x HTTP/1.1\r\n\r\n".to_vec()),
    ));
    let (_, act) = conn_step(c, ConnEvent::IoError);
    assert!(matches!(act, ConnAction::Close));
}

#[test]
fn serve_spawns_while_running() {
    let s = serve_new();
    let (s, act) = serve_step(s, ServeEvent::Accepted);
    assert_eq!(act, ServeAction::Spawn);
    assert_eq!(s.live, 1);
    let (s, act) = serve_step(s, ServeEvent::AcceptFailed);
    assert_eq!(act, ServeAction::Ignore);
    let (s, act) = serve_step(s, ServeEvent::TaskFinished);
    assert_eq!(act, ServeAction::Ignore);
    assert_eq!(s.live, 0);
}

#[test]
fn serve_shutdown_with_no_tasks_finishes_at_once() {
    let s = serve_new();
    let (s, act) = serve_step(s, ServeEvent::Shutdown);
    assert_eq!(act, ServeAction::Finish);
    assert_eq!(s.phase, ServePhase::Done);
    assert_eq!(s.live, 0);
}

#[test]
fn serve_drains_before_finishing() {
    // two live connections; shutdown stops accepting at once, but the
    // serve loop finishes only after both tasks have run to completion
    let s = serve_new();
    let (s, _) = serve_step(s, ServeEvent::Accepted);
    let (s, _) = serve_step(s, ServeEvent::Accepted);
    let (s, act) = serve_step(s, ServeEvent::Shutdown);
    assert_eq!(act, ServeAction::Ignore);
    assert_eq!(s.phase, ServePhase::Draining);
    // an incoming connection after the signal is never spawned
    let (s, act) = serve_step(s, ServeEvent::Accepted);
    assert_ne!(act, ServeAction::Spawn);
    assert_eq!(s.live, 2);
    // a second signal has no further effect
    let (s, act) = serve_step(s, ServeEvent::Shutdown);
    assert_eq!(act, ServeAction::Ignore);
    assert_eq!(s.phase, ServePhase::Draining);
    let (s, act) = serve_step(s, ServeEvent::TaskFinished);
    assert_eq!(act, ServeAction::Ignore);
    assert_eq!(s.live, 1);
    let (s, act) = serve_step(s, ServeEvent::TaskFinished);
    assert_eq!(act, ServeAction::Finish);
    assert_eq!(s.phase, ServePhase::Done);
    assert_eq!(s.live, 0);
}

#[test]
fn into_response_conversions() {
    let r = "plain".into_response();
    assert_eq!(r.status, 200);
    assert_eq!(r.body, b"plain".to_vec());
    let r = String::from("owned").into_response();
    assert_eq!(r.body, b"owned".to_vec());
    let r = Status::NoContent.into_response();
    assert_eq!(r.status, 204);
    assert!(r.body.is_empty());
    let r = Response::json(b"{}".to_vec()).into_response();
    assert_eq!(r.status, 200);
    assert_eq!(r.body, b"{}".to_vec());
}
