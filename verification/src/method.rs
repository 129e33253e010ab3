//! HTTP method as a typed enum: the standard verbs, the WebDAV extensions,
//! and `PURGE` as used by caches.
//!
//! Unknown method tokens are rejected at the server level with a
//! `405 Method Not Allowed` response before they ever reach a handler.

use vstd::prelude::*;

verus! {

use vstd::string::StringSliceAdditionalSpecFns;

/// A known HTTP method.
#[derive(Clone, Copy, Debug, PartialEq, Eq, Structural, Hash)]
pub enum Method {
    Connect,
    Delete,
    Get,
    Head,
    Options,
    Patch,
    Post,
    Put,
    Trace,
    Copy,
    Lock,
    Mkcol,
    Move,
    Propfind,
    Proppatch,
    Unlock,
    Mkcalendar,
    Report,
    Search,
    Purge,
}

/// The uppercase wire name of a method, as a sequence of characters.
pub open spec fn method_name(m: Method) -> Seq<char> {
    match m {
        Method::Connect => "CONNECT"@,
        Method::Copy => "COPY"@,
        Method::Delete => "DELETE"@,
        Method::Get => "GET"@,
        Method::Head => "HEAD"@,
        Method::Lock => "LOCK"@,
        Method::Mkcalendar => "MKCALENDAR"@,
        Method::Mkcol => "MKCOL"@,
        Method::Move => "MOVE"@,
        Method::Options => "OPTIONS"@,
        Method::Patch => "PATCH"@,
        Method::Post => "POST"@,
        Method::Propfind => "PROPFIND"@,
        Method::Proppatch => "PROPPATCH"@,
        Method::Purge => "PURGE"@,
        Method::Put => "PUT"@,
        Method::Report => "REPORT"@,
        Method::Search => "SEARCH"@,
        Method::Trace => "TRACE"@,
        Method::Unlock => "UNLOCK"@,
    }
}

/// The uppercase wire name of a method, as the ASCII bytes that appear in a
/// request line.
pub open spec fn method_token(m: Method) -> Seq<u8> {
    match m {
        Method::Connect => seq![67u8, 79u8, 78u8, 78u8, 69u8, 67u8, 84u8],
        Method::Copy => seq![67u8, 79u8, 80u8, 89u8],
        Method::Delete => seq![68u8, 69u8, 76u8, 69u8, 84u8, 69u8],
        Method::Get => seq![71u8, 69u8, 84u8],
        Method::Head => seq![72u8, 69u8, 65u8, 68u8],
        Method::Lock => seq![76u8, 79u8, 67u8, 75u8],
        Method::Mkcalendar => seq![77u8, 75u8, 67u8, 65u8, 76u8, 69u8, 78u8, 68u8, 65u8, 82u8],
        Method::Mkcol => seq![77u8, 75u8, 67u8, 79u8, 76u8],
        Method::Move => seq![77u8, 79u8, 86u8, 69u8],
        Method::Options => seq![79u8, 80u8, 84u8, 73u8, 79u8, 78u8, 83u8],
        Method::Patch => seq![80u8, 65u8, 84u8, 67u8, 72u8],
        Method::Post => seq![80u8, 79u8, 83u8, 84u8],
        Method::Propfind => seq![80u8, 82u8, 79u8, 80u8, 70u8, 73u8, 78u8, 68u8],
        Method::Proppatch => seq![80u8, 82u8, 79u8, 80u8, 80u8, 65u8, 84u8, 67u8, 72u8],
        Method::Purge => seq![80u8, 85u8, 82u8, 71u8, 69u8],
        Method::Put => seq![80u8, 85u8, 84u8],
        Method::Report => seq![82u8, 69u8, 80u8, 79u8, 82u8, 84u8],
        Method::Search => seq![83u8, 69u8, 65u8, 82u8, 67u8, 72u8],
        Method::Trace => seq![84u8, 82u8, 65u8, 67u8, 69u8],
        Method::Unlock => seq![85u8, 78u8, 76u8, 79u8, 67u8, 75u8],
    }
}

impl Method {
    /// Returns the uppercase wire representation (e.g. `"GET"`).
    pub fn as_str(self) -> (r: &'static str)
        ensures
            r@ == method_name(self),
    {
        match self {
            Method::Connect => "CONNECT",
            Method::Copy => "COPY",
            Method::Delete => "DELETE",
            Method::Get => "GET",
            Method::Head => "HEAD",
            Method::Lock => "LOCK",
            Method::Mkcalendar => "MKCALENDAR",
            Method::Mkcol => "MKCOL",
            Method::Move => "MOVE",
            Method::Options => "OPTIONS",
            Method::Patch => "PATCH",
            Method::Post => "POST",
            Method::Propfind => "PROPFIND",
            Method::Proppatch => "PROPPATCH",
            Method::Purge => "PURGE",
            Method::Put => "PUT",
            Method::Report => "REPORT",
            Method::Search => "SEARCH",
            Method::Trace => "TRACE",
            Method::Unlock => "UNLOCK",
        }
    }

    /// Parses an uppercase method string (e.g. `"GET"`). Case-sensitive.
    pub fn from_str(s: &str) -> (r: Result<Method, ()>)
        ensures
            match r {
                Ok(m) => method_name(m) == s@,
                Err(()) => forall|m: Method| method_name(m) != s@,
            },
    {
        let b = s.as_bytes();
        let r = Self::from_token(b);
        proof {
            Self::lemma_token_of_name();
            match r {
                Some(m) => {
                    assert(s.spec_bytes() == method_token(m));
                    assert(vstd::utf8::encode_utf8(method_name(m)) == vstd::utf8::encode_utf8(
                        s@,
                    ));
                    vstd::utf8::encode_utf8_decode_utf8(method_name(m));
                    vstd::utf8::encode_utf8_decode_utf8(s@);
                },
                None => {
                    assert forall|m: Method| method_name(m) != s@ by {
                        if method_name(m) == s@ {
                            assert(s.spec_bytes() == method_token(m));
                        }
                    }
                },
            }
        }
        match r {
            Some(m) => Ok(m),
            None => Err(()),
        }
    }

    /// Parses the method token of a request line, given as raw bytes.
    pub fn from_token(b: &[u8]) -> (r: Option<Method>)
        ensures
            match r {
                Some(m) => method_token(m) == b@,
                None => forall|m: Method| method_token(m) != b@,
            },
    {
        if b.len() == 0 || b.len() > 10 {
            assert(forall|m: Method| method_token(m) != b@);
            return None;
        }
        let r = match b[0] {
            67u8 => {
                // C
                if token_eq(b, &[67u8, 79u8, 78u8, 78u8, 69u8, 67u8, 84u8]) {
                    Some(Method::Connect)
                } else if token_eq(b, &[67u8, 79u8, 80u8, 89u8]) {
                    Some(Method::Copy)
                } else {
                    None
                }
            },
            68u8 => {
                // D
                if token_eq(b, &[68u8, 69u8, 76u8, 69u8, 84u8, 69u8]) {
                    Some(Method::Delete)
                } else {
                    None
                }
            },
            71u8 => {
                // G
                if token_eq(b, &[71u8, 69u8, 84u8]) {
                    Some(Method::Get)
                } else {
                    None
                }
            },
            72u8 => {
                // H
                if token_eq(b, &[72u8, 69u8, 65u8, 68u8]) {
                    Some(Method::Head)
                } else {
                    None
                }
            },
            76u8 => {
                // L
                if token_eq(b, &[76u8, 79u8, 67u8, 75u8]) {
                    Some(Method::Lock)
                } else {
                    None
                }
            },
            77u8 => {
                // M
                if token_eq(b, &[77u8, 75u8, 67u8, 65u8, 76u8, 69u8, 78u8, 68u8, 65u8, 82u8]) {
                    Some(Method::Mkcalendar)
                } else if token_eq(b, &[77u8, 75u8, 67u8, 79u8, 76u8]) {
                    Some(Method::Mkcol)
                } else if token_eq(b, &[77u8, 79u8, 86u8, 69u8]) {
                    Some(Method::Move)
                } else {
                    None
                }
            },
            79u8 => {
                // O
                if token_eq(b, &[79u8, 80u8, 84u8, 73u8, 79u8, 78u8, 83u8]) {
                    Some(Method::Options)
                } else {
                    None
                }
            },
            80u8 => {
                // P
                if token_eq(b, &[80u8, 65u8, 84u8, 67u8, 72u8]) {
                    Some(Method::Patch)
                } else if token_eq(b, &[80u8, 79u8, 83u8, 84u8]) {
                    Some(Method::Post)
                } else if token_eq(b, &[80u8, 82u8, 79u8, 80u8, 70u8, 73u8, 78u8, 68u8]) {
                    Some(Method::Propfind)
                } else if token_eq(b, &[80u8, 82u8, 79u8, 80u8, 80u8, 65u8, 84u8, 67u8, 72u8]) {
                    Some(Method::Proppatch)
                } else if token_eq(b, &[80u8, 85u8, 82u8, 71u8, 69u8]) {
                    Some(Method::Purge)
                } else if token_eq(b, &[80u8, 85u8, 84u8]) {
                    Some(Method::Put)
                } else {
                    None
                }
            },
            82u8 => {
                // R
                if token_eq(b, &[82u8, 69u8, 80u8, 79u8, 82u8, 84u8]) {
                    Some(Method::Report)
                } else {
                    None
                }
            },
            83u8 => {
                // S
                if token_eq(b, &[83u8, 69u8, 65u8, 82u8, 67u8, 72u8]) {
                    Some(Method::Search)
                } else {
                    None
                }
            },
            84u8 => {
                // T
                if token_eq(b, &[84u8, 82u8, 65u8, 67u8, 69u8]) {
                    Some(Method::Trace)
                } else {
                    None
                }
            },
            85u8 => {
                // U
                if token_eq(b, &[85u8, 78u8, 76u8, 79u8, 67u8, 75u8]) {
                    Some(Method::Unlock)
                } else {
                    None
                }
            },
            _ => None,
        };
        proof {
            if r is None {
                assert forall|m: Method| method_token(m) != b@ by {
                    if method_token(m) == b@ {
                        assert(b@[0] == method_token(m)[0]);
                    }
                }
            }
        }
        r
    }

    /// Every method's byte token is its character name encoded as UTF-8
    /// (all names are plain ASCII).
    proof fn lemma_token_of_name()
        ensures
            forall|m: Method| #[trigger] method_token(m) == vstd::utf8::encode_utf8(
                method_name(m),
            ),
    {
        assert forall|m: Method| #[trigger] method_token(m) == vstd::utf8::encode_utf8(
            method_name(m),
        ) by {
            Self::lemma_token_of_name_one(m);
        }
    }

    proof fn lemma_token_of_name_one(m: Method)
        ensures
            method_token(m) == vstd::utf8::encode_utf8(method_name(m)),
    {
        match m {
            Method::Connect => {
                reveal_strlit("CONNECT");
                assert(vstd::utf8::is_ascii_chars(method_name(m)));
                vstd::utf8::is_ascii_chars_encode_utf8(method_name(m));
                assert(method_token(m) =~= vstd::utf8::encode_utf8(method_name(m)));
            },
            Method::Copy => {
                reveal_strlit("COPY");
                assert(vstd::utf8::is_ascii_chars(method_name(m)));
                vstd::utf8::is_ascii_chars_encode_utf8(method_name(m));
                assert(method_token(m) =~= vstd::utf8::encode_utf8(method_name(m)));
            },
            Method::Delete => {
                reveal_strlit("DELETE");
                assert(vstd::utf8::is_ascii_chars(method_name(m)));
                vstd::utf8::is_ascii_chars_encode_utf8(method_name(m));
                assert(method_token(m) =~= vstd::utf8::encode_utf8(method_name(m)));
            },
            Method::Get => {
                reveal_strlit("GET");
                assert(vstd::utf8::is_ascii_chars(method_name(m)));
                vstd::utf8::is_ascii_chars_encode_utf8(method_name(m));
                assert(method_token(m) =~= vstd::utf8::encode_utf8(method_name(m)));
            },
            Method::Head => {
                reveal_strlit("HEAD");
                assert(vstd::utf8::is_ascii_chars(method_name(m)));
                vstd::utf8::is_ascii_chars_encode_utf8(method_name(m));
                assert(method_token(m) =~= vstd::utf8::encode_utf8(method_name(m)));
            },
            Method::Lock => {
                reveal_strlit("LOCK");
                assert(vstd::utf8::is_ascii_chars(method_name(m)));
                vstd::utf8::is_ascii_chars_encode_utf8(method_name(m));
                assert(method_token(m) =~= vstd::utf8::encode_utf8(method_name(m)));
            },
            Method::Mkcalendar => {
                reveal_strlit("MKCALENDAR");
                assert(vstd::utf8::is_ascii_chars(method_name(m)));
                vstd::utf8::is_ascii_chars_encode_utf8(method_name(m));
                assert(method_token(m) =~= vstd::utf8::encode_utf8(method_name(m)));
            },
            Method::Mkcol => {
                reveal_strlit("MKCOL");
                assert(vstd::utf8::is_ascii_chars(method_name(m)));
                vstd::utf8::is_ascii_chars_encode_utf8(method_name(m));
                assert(method_token(m) =~= vstd::utf8::encode_utf8(method_name(m)));
            },
            Method::Move => {
                reveal_strlit("MOVE");
                assert(vstd::utf8::is_ascii_chars(method_name(m)));
                vstd::utf8::is_ascii_chars_encode_utf8(method_name(m));
                assert(method_token(m) =~= vstd::utf8::encode_utf8(method_name(m)));
            },
            Method::Options => {
                reveal_strlit("OPTIONS");
                assert(vstd::utf8::is_ascii_chars(method_name(m)));
                vstd::utf8::is_ascii_chars_encode_utf8(method_name(m));
                assert(method_token(m) =~= vstd::utf8::encode_utf8(method_name(m)));
            },
            Method::Patch => {
                reveal_strlit("PATCH");
                assert(vstd::utf8::is_ascii_chars(method_name(m)));
                vstd::utf8::is_ascii_chars_encode_utf8(method_name(m));
                assert(method_token(m) =~= vstd::utf8::encode_utf8(method_name(m)));
            },
            Method::Post => {
                reveal_strlit("POST");
                assert(vstd::utf8::is_ascii_chars(method_name(m)));
                vstd::utf8::is_ascii_chars_encode_utf8(method_name(m));
                assert(method_token(m) =~= vstd::utf8::encode_utf8(method_name(m)));
            },
            Method::Propfind => {
                reveal_strlit("PROPFIND");
                assert(vstd::utf8::is_ascii_chars(method_name(m)));
                vstd::utf8::is_ascii_chars_encode_utf8(method_name(m));
                assert(method_token(m) =~= vstd::utf8::encode_utf8(method_name(m)));
            },
            Method::Proppatch => {
                reveal_strlit("PROPPATCH");
                assert(vstd::utf8::is_ascii_chars(method_name(m)));
                vstd::utf8::is_ascii_chars_encode_utf8(method_name(m));
                assert(method_token(m) =~= vstd::utf8::encode_utf8(method_name(m)));
            },
            Method::Purge => {
                reveal_strlit("PURGE");
                assert(vstd::utf8::is_ascii_chars(method_name(m)));
                vstd::utf8::is_ascii_chars_encode_utf8(method_name(m));
                assert(method_token(m) =~= vstd::utf8::encode_utf8(method_name(m)));
            },
            Method::Put => {
                reveal_strlit("PUT");
                assert(vstd::utf8::is_ascii_chars(method_name(m)));
                vstd::utf8::is_ascii_chars_encode_utf8(method_name(m));
                assert(method_token(m) =~= vstd::utf8::encode_utf8(method_name(m)));
            },
            Method::Report => {
                reveal_strlit("REPORT");
                assert(vstd::utf8::is_ascii_chars(method_name(m)));
                vstd::utf8::is_ascii_chars_encode_utf8(method_name(m));
                assert(method_token(m) =~= vstd::utf8::encode_utf8(method_name(m)));
            },
            Method::Search => {
                reveal_strlit("SEARCH");
                assert(vstd::utf8::is_ascii_chars(method_name(m)));
                vstd::utf8::is_ascii_chars_encode_utf8(method_name(m));
                assert(method_token(m) =~= vstd::utf8::encode_utf8(method_name(m)));
            },
            Method::Trace => {
                reveal_strlit("TRACE");
                assert(vstd::utf8::is_ascii_chars(method_name(m)));
                vstd::utf8::is_ascii_chars_encode_utf8(method_name(m));
                assert(method_token(m) =~= vstd::utf8::encode_utf8(method_name(m)));
            },
            Method::Unlock => {
                reveal_strlit("UNLOCK");
                assert(vstd::utf8::is_ascii_chars(method_name(m)));
                vstd::utf8::is_ascii_chars_encode_utf8(method_name(m));
                assert(method_token(m) =~= vstd::utf8::encode_utf8(method_name(m)));
            },
        }
    }
}

/// Compares a request-line token against a known method's byte spelling.
fn token_eq(a: &[u8], b: &[u8]) -> (r: bool)
    ensures
        r == (a@ == b@),
{
    if a.len() != b.len() {
        assert(a@ != b@);
        return false;
    }
    let n = a.len();
    let mut i: usize = 0;
    while i < n
        invariant
            n == a@.len() == b@.len(),
            0 <= i <= n,
            forall|j: int| 0 <= j < i ==> a@[j] == b@[j],
        decreases n - i,
    {
        if a[i] != b[i] {
            return false;
        }
        i += 1;
    }
    assert(a@ =~= b@);
    true
}

} // verus!
