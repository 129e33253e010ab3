//! A minimal HTTP/1.1 server core meant to sit behind a trusted reverse
//! proxy: a per-method path-matching trie, request parsing and response
//! serialization over raw bytes, and the state machines that drive one
//! connection and the accept/shutdown lifecycle.
//!
//! The engine itself performs no I/O. A thin runtime around it owns the
//! sockets: it feeds bytes and completions into the connection state
//! machine, invokes the handler the router resolves, and writes the
//! serialized response bytes back, for any number of concurrent
//! connections, draining them all before shutdown completes.

use vstd::prelude::*;

pub mod http1;
pub mod lifecycle;
pub mod method;
pub mod request;
pub mod response;
pub mod router;
pub mod server;
pub mod status;

pub use http1::RawRequest;
pub use lifecycle::Serve;
pub use lifecycle::ServeAction;
pub use lifecycle::ServeEvent;
pub use lifecycle::ServePhase;
pub use method::Method;
pub use request::Request;
pub use response::ContentType;
pub use response::IntoResponse;
pub use response::Response;
pub use response::ResponseBuilder;
pub use router::RouteError;
pub use router::Router;
pub use server::Conn;
pub use server::ConnAction;
pub use server::ConnEvent;
pub use server::ConnState;
pub use server::Dispatched;
pub use status::Status;
pub use status::status_reason;

verus! {

} // verus!
