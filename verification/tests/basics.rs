//! Method, status and request basics.

use astor::{Method, Request, Status, status_reason};

const ALL_METHODS: [Method; 20] = [
    Method::Connect,
    Method::Delete,
    Method::Get,
    Method::Head,
    Method::Options,
    Method::Patch,
    Method::Post,
    Method::Put,
    Method::Trace,
    Method::Copy,
    Method::Lock,
    Method::Mkcol,
    Method::Move,
    Method::Propfind,
    Method::Proppatch,
    Method::Unlock,
    Method::Mkcalendar,
    Method::Report,
    Method::Search,
    Method::Purge,
];

#[test]
fn method_as_str_values() {
    assert_eq!(Method::Get.as_str(), "GET");
    assert_eq!(Method::Mkcalendar.as_str(), "MKCALENDAR");
    assert_eq!(Method::Purge.as_str(), "PURGE");
    assert_eq!(Method::Proppatch.as_str(), "PROPPATCH");
}

#[test]
fn method_round_trip() {
    for m in ALL_METHODS {
        assert_eq!(Method::from_str(m.as_str()), Ok(m));
        assert_eq!(Method::from_token(m.as_str().as_bytes()), Some(m));
    }
}

#[test]
fn method_unknown_token() {
    assert_eq!(Method::from_token(b"FROB"), None);
    assert_eq!(Method::from_token(b""), None);
    assert_eq!(Method::from_token(b"GETX"), None);
    assert_eq!(Method::from_str("get"), Err(()));
    assert_eq!(Method::from_str("Get"), Err(()));
}

#[test]
fn status_codes() {
    assert_eq!(Status::Okay.code(), 200);
    assert_eq!(Status::NotFound.code(), 404);
    assert_eq!(Status::MethodNotAllowed.code(), 405);
    assert_eq!(Status::Created.code(), 201);
    assert_eq!(Status::NoContent.code(), 204);
    assert_eq!(Status::InternalServerError.code(), 500);
    assert_eq!(Status::ImATeapot.code(), 418);
    assert_eq!(Status::NetworkAuthenticationRequired.code(), 511);
}

#[test]
fn status_reason_values() {
    assert_eq!(status_reason(200), "OK");
    assert_eq!(status_reason(404), "Not Found");
    assert_eq!(status_reason(405), "Method Not Allowed");
    assert_eq!(status_reason(418), "I'm a Teapot");
    assert_eq!(status_reason(226), "IM Used");
    assert_eq!(status_reason(999), "");
    assert_eq!(status_reason(0), "");
}

#[test]
fn request_accessors_and_param() {
    let req = Request::new(
        Method::Get,
        b"/users/42".to_vec(),
        vec![(b"host".to_vec(), b"example".to_vec())],
        b"body".to_vec(),
        vec![
            (b"id".to_vec(), b"42".to_vec()),
            (b"id".to_vec(), b"later".to_vec()),
            (b"name".to_vec(), b"ada".to_vec()),
        ],
    );
    assert_eq!(req.method(), Method::Get);
    assert_eq!(req.path(), &b"/users/42".to_vec());
    assert_eq!(req.headers().len(), 1);
    assert_eq!(req.body(), &b"body".to_vec());
    // first pair with the name wins
    assert_eq!(req.param("id"), Some(&b"42".to_vec()));
    assert_eq!(req.param("name"), Some(&b"ada".to_vec()));
    assert_eq!(req.param("missing"), None);
}
