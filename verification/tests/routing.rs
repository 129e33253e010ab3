//! Route registration, lookup, precedence and captures.

use astor::{Method, RouteError, Router};

#[test]
fn literal_beats_capture() {
    let router: Router<u32> = Router::new()
        .get("/users/:id", 1)
        .get("/users/me", 2);
    let (h, caps) = router.lookup(Method::Get, "/users/me").unwrap();
    assert_eq!(*h, 2);
    assert!(caps.is_empty());
    let (h, caps) = router.lookup(Method::Get, "/users/42").unwrap();
    assert_eq!(*h, 1);
    assert_eq!(caps, vec![(b"id".to_vec(), b"42".to_vec())]);
}

#[test]
fn literal_beats_capture_registered_in_either_order() {
    let router: Router<u32> = Router::new()
        .get("/users/me", 2)
        .get("/users/:id", 1);
    let (h, _) = router.lookup(Method::Get, "/users/me").unwrap();
    assert_eq!(*h, 2);
    let (h, _) = router.lookup(Method::Get, "/users/42").unwrap();
    assert_eq!(*h, 1);
}

#[test]
fn lookup_miss_returns_none() {
    let router: Router<u32> = Router::new().get("/users/:id", 1);
    assert!(router.lookup(Method::Get, "/").is_none());
    assert!(router.lookup(Method::Get, "/users").is_none());
    assert!(router.lookup(Method::Get, "/users/1/posts").is_none());
    assert!(router.lookup(Method::Post, "/users/1").is_none());
    assert!(router.lookup(Method::Purge, "").is_none());
}

#[test]
fn empty_router_matches_nothing() {
    let router: Router<u32> = Router::new();
    assert!(router.lookup(Method::Get, "/").is_none());
    assert!(router.lookup(Method::Get, "").is_none());
}

#[test]
fn methods_are_disjoint() {
    let router: Router<u32> = Router::new()
        .get("/x", 1)
        .post("/x", 2)
        .put("/x", 3)
        .delete("/x", 4)
        .patch("/x", 5);
    assert_eq!(*router.lookup(Method::Get, "/x").unwrap().0, 1);
    assert_eq!(*router.lookup(Method::Post, "/x").unwrap().0, 2);
    assert_eq!(*router.lookup(Method::Put, "/x").unwrap().0, 3);
    assert_eq!(*router.lookup(Method::Delete, "/x").unwrap().0, 4);
    assert_eq!(*router.lookup(Method::Patch, "/x").unwrap().0, 5);
    assert!(router.lookup(Method::Head, "/x").is_none());
}

#[test]
fn route_arbitrary_method() {
    let router: Router<u32> = Router::new().route(Method::Purge, "/cache/:key", 9);
    let (h, caps) = router.lookup(Method::Purge, "/cache/a1").unwrap();
    assert_eq!(*h, 9);
    assert_eq!(caps, vec![(b"key".to_vec(), b"a1".to_vec())]);
}

#[test]
fn brace_capture_syntax() {
    let router: Router<u32> = Router::new().get("/users/{id}/posts/{post}", 7);
    let (h, caps) = router.lookup(Method::Get, "/users/3/posts/9").unwrap();
    assert_eq!(*h, 7);
    assert_eq!(
        caps,
        vec![
            (b"id".to_vec(), b"3".to_vec()),
            (b"post".to_vec(), b"9".to_vec())
        ]
    );
}

#[test]
fn capture_backtracks_to_literal_suffix() {
    // /a/b and /:x/c: a path /a/c matches only the capture route, even
    // though its first segment also matches the literal edge `a`.
    let router: Router<u32> = Router::new().get("/a/b", 1).get("/:x/c", 2);
    assert_eq!(*router.lookup(Method::Get, "/a/b").unwrap().0, 1);
    let (h, caps) = router.lookup(Method::Get, "/a/c").unwrap();
    assert_eq!(*h, 2);
    assert_eq!(caps, vec![(b"x".to_vec(), b"a".to_vec())]);
    assert!(router.lookup(Method::Get, "/a/d").is_none());
}

#[test]
fn trailing_slash_is_distinct() {
    let router: Router<u32> = Router::new().get("/users", 1);
    assert!(router.lookup(Method::Get, "/users/").is_none());
    let router2: Router<u32> = Router::new().get("/users/", 1);
    assert!(router2.lookup(Method::Get, "/users").is_none());
    assert_eq!(*router2.lookup(Method::Get, "/users/").unwrap().0, 1);
}

#[test]
fn root_route() {
    let router: Router<u32> = Router::new().get("/", 1);
    assert_eq!(*router.lookup(Method::Get, "/").unwrap().0, 1);
    assert!(router.lookup(Method::Get, "").is_none());
}

#[test]
fn duplicate_route_refused() {
    let router: Router<u32> = Router::new().get("/users/:id", 1);
    let err = router.try_route(Method::Get, "/users/:id", 2).map(|_| ()).unwrap_err();
    assert_eq!(err, RouteError::DuplicateRoute);
}

#[test]
fn duplicate_route_same_capture_name_refused() {
    let router: Router<u32> = Router::new().get("/users/{id}", 1);
    // `{id}` and `:id` denote the same pattern
    let err = router.try_route(Method::Get, "/users/:id", 2).map(|_| ()).unwrap_err();
    assert_eq!(err, RouteError::DuplicateRoute);
}

#[test]
fn same_pattern_other_method_allowed() {
    let router: Router<u32> = Router::new().get("/users/:id", 1);
    assert!(router.try_route(Method::Post, "/users/:id", 2).is_ok());
}

#[test]
fn capture_name_conflict_refused() {
    let router: Router<u32> = Router::new().get("/users/:id/a", 1);
    let err = router.try_route(Method::Get, "/users/:uid/b", 2).map(|_| ()).unwrap_err();
    assert_eq!(err, RouteError::CaptureConflict);
}

#[test]
fn empty_capture_name_refused() {
    let router: Router<u32> = Router::new();
    let err = router.try_route(Method::Get, "/users/:", 1).map(|_| ()).unwrap_err();
    assert_eq!(err, RouteError::InvalidPattern);
    let router: Router<u32> = Router::new();
    let err = router.try_route(Method::Get, "/users/{}", 1).map(|_| ()).unwrap_err();
    assert_eq!(err, RouteError::InvalidPattern);
}

#[test]
fn capture_binds_empty_segment() {
    let router: Router<u32> = Router::new().get("/users/:id", 1);
    let (h, caps) = router.lookup(Method::Get, "/users/").unwrap();
    assert_eq!(*h, 1);
    assert_eq!(caps, vec![(b"id".to_vec(), b"".to_vec())]);
}

#[test]
fn deep_mixed_routes() {
    let router: Router<&'static str> = Router::new()
        .get("/api/v1/users/:id/posts", "posts")
        .get("/api/v1/users/:id/comments", "comments")
        .get("/api/v1/users/self/posts", "own-posts")
        .get("/api/:version/health", "health");
    assert_eq!(
        *router.lookup(Method::Get, "/api/v1/users/7/posts").unwrap().0,
        "posts"
    );
    assert_eq!(
        *router.lookup(Method::Get, "/api/v1/users/self/posts").unwrap().0,
        "own-posts"
    );
    let (h, caps) = router.lookup(Method::Get, "/api/v2/health").unwrap();
    assert_eq!(*h, "health");
    assert_eq!(caps, vec![(b"version".to_vec(), b"v2".to_vec())]);
    assert!(router.lookup(Method::Get, "/api/v1/users/7/likes").is_none());
}
