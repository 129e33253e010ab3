//! Incoming HTTP request type.
//!
//! The engine sits behind a trusted reverse proxy and hands the parsed
//! data over as plain bytes: the path, the ordered header list (duplicates
//! preserved) and the body, together with the values the router bound to
//! the matched route's named captures.

use vstd::prelude::*;

use crate::method::Method;

verus! {

use vstd::string::StringSliceAdditionalSpecFns;

/// The first pair in `s` whose name equals `k`, if any.
pub open spec fn pair_lookup(s: Seq<(Vec<u8>, Vec<u8>)>, k: Seq<u8>) -> Option<Vec<u8>>
    decreases s.len(),
{
    if s.len() == 0 {
        None
    } else if s[0].0@ == k {
        Some(s[0].1)
    } else {
        pair_lookup(s.drop_first(), k)
    }
}

/// An incoming HTTP request: the method, the raw path, the ordered header
/// list, the body bytes, and the captures bound by the matched route.
pub struct Request {
    pub method: Method,
    pub path: Vec<u8>,
    pub headers: Vec<(Vec<u8>, Vec<u8>)>,
    pub body: Vec<u8>,
    pub params: Vec<(Vec<u8>, Vec<u8>)>,
}

impl Request {
    /// Assembles a request from parsed wire data and the captures the
    /// router extracted; called by the engine, not by handler code.
    pub fn new(
        method: Method,
        path: Vec<u8>,
        headers: Vec<(Vec<u8>, Vec<u8>)>,
        body: Vec<u8>,
        params: Vec<(Vec<u8>, Vec<u8>)>,
    ) -> (r: Request)
        ensures
            r.method == method,
            r.path == path,
            r.headers == headers,
            r.body == body,
            r.params == params,
    {
        Request { method, path, headers, body, params }
    }

    /// Returns the HTTP method.
    pub fn method(&self) -> (r: Method)
        ensures
            r == self.method,
    {
        self.method
    }

    /// Returns the raw request path.
    pub fn path(&self) -> (r: &Vec<u8>)
        ensures
            r == self.path,
    {
        &self.path
    }

    /// Returns the request headers, in wire order, duplicates preserved.
    pub fn headers(&self) -> (r: &Vec<(Vec<u8>, Vec<u8>)>)
        ensures
            r == self.headers,
    {
        &self.headers
    }

    /// Returns the request body.
    pub fn body(&self) -> (r: &Vec<u8>)
        ensures
            r == self.body,
    {
        &self.body
    }

    /// Returns the value bound to the named path capture, or `None` if the
    /// matched route has no capture of that name.
    pub fn param(&self, key: &str) -> (r: Option<&Vec<u8>>)
        ensures
            match r {
                Some(v) => pair_lookup(self.params@, key.spec_bytes()) == Some(*v),
                None => pair_lookup(self.params@, key.spec_bytes()) is None,
            },
    {
        let kb = key.as_bytes();
        let n = self.params.len();
        let mut i: usize = 0;
        proof {
            assert(self.params@.skip(0) =~= self.params@);
        }
        while i < n
            invariant
                n == self.params@.len(),
                0 <= i <= n,
                kb@ == key.spec_bytes(),
                pair_lookup(self.params@, key.spec_bytes()) == pair_lookup(
                    self.params@.skip(i as int),
                    key.spec_bytes(),
                ),
            decreases n - i,
        {
            let hit = crate::router::bytes_eq(self.params[i].0.as_slice(), kb);
            proof {
                assert(self.params@.skip(i as int)[0] == self.params@[i as int]);
                assert(self.params@.skip(i as int).drop_first() =~= self.params@.skip(
                    i as int + 1,
                ));
            }
            if hit {
                return Some(&self.params[i].1);
            }
            i += 1;
        }
        proof {
            assert(self.params@.skip(n as int) =~= Seq::<(Vec<u8>, Vec<u8>)>::empty());
        }
        None
    }
}

} // verus!
