//! HTTP/1.1 request parsing over raw bytes.
//!
//! One request is a request line, header lines up to a blank line, and a
//! body of exactly `Content-Length` bytes (zero when the header is absent
//! or does not parse). The functions here are pure: they read a byte
//! buffer and report either a complete request with the count of bytes it
//! occupies, or that the buffer does not yet hold a complete request. The
//! whole grammar is pinned down by [`spec_parse`], and a complete parse is
//! stable under appended bytes, which is what keeps back-to-back requests
//! on one connection framed correctly.

use vstd::prelude::*;

verus! {

use crate::router::pairs_view;
use crate::router::sub_bytes;
use crate::router::clone_bytes;

/// A parsed request, before routing: the raw method token and path from
/// the request line, the well-formed header lines in order, and the body.
pub struct RawRequest {
    pub method_token: Vec<u8>,
    pub path: Vec<u8>,
    pub headers: Vec<(Vec<u8>, Vec<u8>)>,
    pub body: Vec<u8>,
}

/// The mathematical model of a parsed request.
pub struct ReqModel {
    pub method_token: Seq<u8>,
    pub path: Seq<u8>,
    pub headers: Seq<(Seq<u8>, Seq<u8>)>,
    pub body: Seq<u8>,
}

/// The model of a [`RawRequest`].
pub open spec fn req_model(r: RawRequest) -> ReqModel {
    ReqModel {
        method_token: r.method_token@,
        path: r.path@,
        headers: pairs_view(r.headers@),
        body: r.body@,
    }
}

/// The position of the first CRLF pair at or after `i`, if any.
pub open spec fn find_crlf_from(b: Seq<u8>, i: int) -> Option<int>
    decreases b.len() - i,
{
    if i < 0 || i + 2 > b.len() {
        None
    } else if b[i] == 13 && b[i + 1] == 10 {
        Some(i)
    } else {
        find_crlf_from(b, i + 1)
    }
}

/// What a found CRLF position means: in range, a CRLF there, none before.
pub proof fn lemma_find_crlf(b: Seq<u8>, i: int)
    requires
        0 <= i,
    ensures
        match find_crlf_from(b, i) {
            Some(j) => i <= j && j + 2 <= b.len() && b[j] == 13 && b[j + 1] == 10 && (forall|
                x: int,
            |
                i <= x < j ==> !(#[trigger] b[x] == 13 && b[x + 1] == 10)),
            None => forall|x: int|
                i <= x && x + 2 <= b.len() ==> !(#[trigger] b[x] == 13 && b[x + 1] == 10),
        },
    decreases b.len() - i,
{
    if i + 2 > b.len() {
    } else if b[i] == 13 && b[i + 1] == 10 {
    } else {
        lemma_find_crlf(b, i + 1);
    }
}

/// Finds the first CRLF pair at or after `from`.
fn find_crlf(b: &[u8], from: usize) -> (r: Option<usize>)
    requires
        from <= b@.len(),
    ensures
        match r {
            Some(j) => find_crlf_from(b@, from as int) == Some(j as int) && from <= j && j + 2
                <= b@.len(),
            None => find_crlf_from(b@, from as int) is None,
        },
{
    let n = b.len();
    let mut i: usize = from;
    while i < n && i + 1 < n
        invariant
            from <= i <= n,
            n == b@.len(),
            find_crlf_from(b@, from as int) == find_crlf_from(b@, i as int),
        decreases n - i,
    {
        if b[i] == 13 && b[i + 1] == 10 {
            return Some(i);
        }
        i += 1;
    }
    None
}

/// The position of the first space at or after `i`, if any.
pub open spec fn find_sp_from(b: Seq<u8>, i: int) -> Option<int>
    decreases b.len() - i,
{
    if i < 0 || i >= b.len() {
        None
    } else if b[i] == 32 {
        Some(i)
    } else {
        find_sp_from(b, i + 1)
    }
}

/// Finds the first space at or after `from`.
fn find_sp(b: &[u8], from: usize) -> (r: Option<usize>)
    requires
        from <= b@.len(),
    ensures
        match r {
            Some(j) => find_sp_from(b@, from as int) == Some(j as int) && from <= j && j
                < b@.len(),
            None => find_sp_from(b@, from as int) is None,
        },
{
    let n = b.len();
    let mut i: usize = from;
    while i < n
        invariant
            from <= i <= n,
            n == b@.len(),
            find_sp_from(b@, from as int) == find_sp_from(b@, i as int),
        decreases n - i,
    {
        if b[i] == 32 {
            return Some(i);
        }
        i += 1;
    }
    None
}

/// The method token of a request line: the bytes up to the first space,
/// or the whole line when it has none.
pub open spec fn req_line_method(line: Seq<u8>) -> Seq<u8> {
    match find_sp_from(line, 0) {
        Some(j) => line.take(j),
        None => line,
    }
}

/// The path of a request line: the bytes between the first and second
/// space; empty when the line has no space, and running to the end when
/// it has only one.
pub open spec fn req_line_path(line: Seq<u8>) -> Seq<u8> {
    match find_sp_from(line, 0) {
        None => Seq::empty(),
        Some(j) => match find_sp_from(line, j + 1) {
            Some(k) => line.subrange(j + 1, k),
            None => line.skip(j + 1),
        },
    }
}

/// The position of the first `": "` pair at or after `i`, if any.
pub open spec fn find_colsp_from(b: Seq<u8>, i: int) -> Option<int>
    decreases b.len() - i,
{
    if i < 0 || i + 2 > b.len() {
        None
    } else if b[i] == 58 && b[i + 1] == 32 {
        Some(i)
    } else {
        find_colsp_from(b, i + 1)
    }
}

/// Finds the first `": "` pair at or after `from`.
fn find_colsp(b: &[u8], from: usize) -> (r: Option<usize>)
    requires
        from <= b@.len(),
    ensures
        match r {
            Some(j) => find_colsp_from(b@, from as int) == Some(j as int) && from <= j && j + 2
                <= b@.len(),
            None => find_colsp_from(b@, from as int) is None,
        },
{
    let n = b.len();
    let mut i: usize = from;
    while i < n && i + 1 < n
        invariant
            from <= i <= n,
            n == b@.len(),
            find_colsp_from(b@, from as int) == find_colsp_from(b@, i as int),
        decreases n - i,
    {
        if b[i] == 58 && b[i + 1] == 32 {
            return Some(i);
        }
        i += 1;
    }
    None
}

/// The header pair denoted by one header line, split on the first `": "`;
/// `None` for a malformed line, which the parser silently drops.
pub open spec fn header_of_line(line: Seq<u8>) -> Option<(Seq<u8>, Seq<u8>)> {
    match find_colsp_from(line, 0) {
        None => None,
        Some(j) => Some((line.take(j), line.skip(j + 2))),
    }
}

/// The header list parsed from the lines starting at `i`, up to and
/// including the blank line, together with the position just after that
/// blank line; `None` while the blank line has not arrived yet.
pub open spec fn headers_from(b: Seq<u8>, i: int) -> Option<(Seq<(Seq<u8>, Seq<u8>)>, int)>
    decreases b.len() - i,
    via headers_from_dec
{
    if i < 0 {
        None
    } else {
        match find_crlf_from(b, i) {
            None => None,
            Some(j) => if j == i {
                Some((Seq::empty(), i + 2))
            } else {
                match headers_from(b, j + 2) {
                    None => None,
                    Some((hs, e)) => match header_of_line(b.subrange(i, j)) {
                        Some(hv) => Some((seq![hv] + hs, e)),
                        None => Some((hs, e)),
                    },
                }
            },
        }
    }
}

#[via_fn]
proof fn headers_from_dec(b: Seq<u8>, i: int) {
    if i >= 0 {
        lemma_find_crlf(b, i);
    }
}

/// The end position of a parsed header section lies within the buffer.
pub proof fn lemma_headers_from_end(b: Seq<u8>, i: int)
    requires
        0 <= i,
    ensures
        match headers_from(b, i) {
            Some((hs, e)) => i + 2 <= e <= b.len(),
            None => true,
        },
    decreases b.len() - i,
{
    lemma_find_crlf(b, i);
    match find_crlf_from(b, i) {
        None => {},
        Some(j) => {
            if j != i {
                lemma_headers_from_end(b, j + 2);
            }
        },
    }
}

/// Lowercases one ASCII byte.
pub open spec fn lower_byte(x: u8) -> u8 {
    if 65 <= x <= 90 {
        (x + 32) as u8
    } else {
        x
    }
}

/// ASCII-case-insensitive equality of two byte strings.
pub open spec fn ci_eq(a: Seq<u8>, b: Seq<u8>) -> bool {
    a.len() == b.len() && forall|i: int|
        0 <= i < a.len() ==> lower_byte(#[trigger] a[i]) == lower_byte(b[i])
}

/// The header name whose value frames the body.
pub open spec fn content_length_name() -> Seq<u8> {
    seq![99u8, 111u8, 110u8, 116u8, 101u8, 110u8, 116u8, 45u8, 108u8, 101u8, 110u8, 103u8, 116u8, 104u8]
}

/// The value of the first `content-length` header, if any.
pub open spec fn cl_value(hs: Seq<(Seq<u8>, Seq<u8>)>) -> Option<Seq<u8>>
    decreases hs.len(),
{
    if hs.len() == 0 {
        None
    } else if ci_eq(hs[0].0, content_length_name()) {
        Some(hs[0].1)
    } else {
        cl_value(hs.drop_first())
    }
}

/// Whether a byte string is one or more decimal digits.
pub open spec fn is_digits(s: Seq<u8>) -> bool {
    s.len() > 0 && forall|i: int| 0 <= i < s.len() ==> 48 <= #[trigger] s[i] <= 57
}

/// The numeric value of a digit string.
pub open spec fn dec_value(s: Seq<u8>) -> int
    decreases s.len(),
{
    if s.len() == 0 {
        0
    } else {
        dec_value(s.drop_last()) * 10 + (s.last() - 48)
    }
}

/// The body length a header list dictates: the value of the first
/// `content-length` header when it is a digit string whose value fits in
/// `usize`, and zero otherwise.
pub open spec fn body_len_of(hs: Seq<(Seq<u8>, Seq<u8>)>) -> int {
    match cl_value(hs) {
        None => 0,
        Some(v) => if is_digits(v) && dec_value(v) <= usize::MAX {
            dec_value(v)
        } else {
            0
        },
    }
}

/// One whole request parsed from the front of a buffer: request line up
/// to the first CRLF, headers up to the blank line, then exactly the body
/// the headers dictate; `None` while the buffer holds no complete request.
pub open spec fn spec_parse(b: Seq<u8>) -> Option<(ReqModel, int)> {
    match find_crlf_from(b, 0) {
        None => None,
        Some(j) => match headers_from(b, j + 2) {
            None => None,
            Some((hs, e)) => {
                let line = b.take(j);
                let cl = body_len_of(hs);
                if e + cl <= b.len() {
                    Some(
                        (
                            ReqModel {
                                method_token: req_line_method(line),
                                path: req_line_path(line),
                                headers: hs,
                                body: b.subrange(e, e + cl),
                            },
                            e + cl,
                        ),
                    )
                } else {
                    None
                }
            },
        },
    }
}

/// Lowercases one ASCII byte.
fn lower(x: u8) -> (r: u8)
    ensures
        r == lower_byte(x),
{
    if 65 <= x && x <= 90 {
        x + 32
    } else {
        x
    }
}

/// The byte at position `i` of the `content-length` header name.
fn cl_name_byte(i: usize) -> (r: u8)
    requires
        i < 14,
    ensures
        r == content_length_name()[i as int],
{
    match i {
        0 => 99,
        1 => 111,
        2 => 110,
        3 => 116,
        4 => 101,
        5 => 110,
        6 => 116,
        7 => 45,
        8 => 108,
        9 => 101,
        10 => 110,
        11 => 103,
        12 => 116,
        13 => 104,
        _ => 0,
    }
}

/// Whether a header name is `content-length`, matched case-insensitively.
fn is_cl_name(name: &[u8]) -> (r: bool)
    ensures
        r == ci_eq(name@, content_length_name()),
{
    proof {
        assert(content_length_name().len() == 14);
    }
    if name.len() != 14 {
        return false;
    }
    let mut i: usize = 0;
    while i < 14
        invariant
            0 <= i <= 14,
            name@.len() == 14,
            forall|j: int|
                0 <= j < i ==> lower_byte(#[trigger] name@[j]) == lower_byte(
                    content_length_name()[j],
                ),
        decreases 14 - i,
    {
        if lower(name[i]) != lower(cl_name_byte(i)) {
            return false;
        }
        i += 1;
    }
    true
}

/// The value of any digit-string prefix never exceeds the whole string's.
proof fn lemma_dec_prefix_le(s: Seq<u8>, i: int)
    requires
        is_digits(s),
        0 <= i <= s.len(),
    ensures
        0 <= dec_value(s.take(i)) <= dec_value(s),
    decreases s.len() - i,
{
    lemma_dec_nonneg(s.take(i));
    if i == s.len() {
        assert(s.take(i) =~= s);
    } else {
        lemma_dec_prefix_le(s, i + 1);
        assert(s.take(i + 1).drop_last() =~= s.take(i));
        assert(s.take(i + 1).last() == s[i]);
        lemma_dec_nonneg(s.take(i + 1));
    }
}

/// A digit string's value is nonnegative.
proof fn lemma_dec_nonneg(s: Seq<u8>)
    requires
        forall|i: int| 0 <= i < s.len() ==> 48 <= #[trigger] s[i] <= 57,
    ensures
        dec_value(s) >= 0,
    decreases s.len(),
{
    if s.len() > 0 {
        assert(forall|i: int|
            0 <= i < s.drop_last().len() ==> 48 <= #[trigger] s.drop_last()[i] <= 57);
        lemma_dec_nonneg(s.drop_last());
    }
}

/// Parses a digit string into a machine integer; `None` when the string
/// is empty, holds a non-digit, or exceeds `usize`.
fn parse_dec(v: &[u8]) -> (r: Option<usize>)
    ensures
        match r {
            Some(x) => is_digits(v@) && dec_value(v@) == x,
            None => !(is_digits(v@) && dec_value(v@) <= usize::MAX),
        },
{
    let n = v.len();
    if n == 0 {
        return None;
    }
    let mut acc: usize = 0;
    let mut i: usize = 0;
    while i < n
        invariant
            0 <= i <= n,
            n == v@.len(),
            n > 0,
            forall|j: int| 0 <= j < i ==> 48 <= #[trigger] v@[j] <= 57,
            acc == dec_value(v@.take(i as int)),
        decreases n - i,
    {
        let c = v[i];
        if c < 48 || c > 57 {
            return None;
        }
        let d = (c - 48) as usize;
        if acc > (usize::MAX - d) / 10 {
            proof {
                assert(v@.take(i as int + 1).drop_last() =~= v@.take(i as int));
                assert(v@.take(i as int + 1).last() == v@[i as int]);
                assert(dec_value(v@.take(i as int + 1)) == acc * 10 + d);
                if is_digits(v@) {
                    lemma_dec_prefix_le(v@, i as int + 1);
                    assert(dec_value(v@) >= acc * 10 + d);
                    assert(acc * 10 + d > usize::MAX) by (nonlinear_arith)
                        requires
                            acc > (usize::MAX - d) / 10,
                            0 <= d <= 9,
                            acc >= 0,
                    ;
                }
            }
            return None;
        }
        proof {
            assert(acc * 10 + d <= usize::MAX) by (nonlinear_arith)
                requires
                    acc <= (usize::MAX - d) / 10,
                    0 <= d <= 9,
                    acc >= 0,
            ;
            assert(v@.take(i as int + 1).drop_last() =~= v@.take(i as int));
            assert(v@.take(i as int + 1).last() == v@[i as int]);
        }
        acc = acc * 10 + d;
        i += 1;
    }
    proof {
        assert(v@.take(n as int) =~= v@);
    }
    Some(acc)
}

/// The body length dictated by a parsed header list.
fn body_length(headers: &Vec<(Vec<u8>, Vec<u8>)>) -> (r: usize)
    ensures
        r == body_len_of(pairs_view(headers@)),
{
    let n = headers.len();
    let mut i: usize = 0;
    proof {
        assert(pairs_view(headers@).skip(0) =~= pairs_view(headers@));
    }
    while i < n
        invariant
            0 <= i <= n,
            n == headers@.len(),
            cl_value(pairs_view(headers@)) == cl_value(pairs_view(headers@).skip(i as int)),
        decreases n - i,
    {
        proof {
            assert(pairs_view(headers@).skip(i as int)[0] == pairs_view(headers@)[i as int]);
            assert(pairs_view(headers@).skip(i as int).drop_first() =~= pairs_view(
                headers@,
            ).skip(i as int + 1));
        }
        if is_cl_name(headers[i].0.as_slice()) {
            let got = parse_dec(headers[i].1.as_slice());
            match got {
                Some(x) => {
                    return x;
                },
                None => {
                    return 0;
                },
            }
        }
        i += 1;
    }
    proof {
        assert(pairs_view(headers@).skip(n as int) =~= Seq::<(Seq<u8>, Seq<u8>)>::empty());
    }
    0
}

/// Parses the header lines starting at `start`, up to the blank line.
fn parse_headers(b: &[u8], start: usize) -> (r: Option<(Vec<(Vec<u8>, Vec<u8>)>, usize)>)
    requires
        start <= b@.len(),
    ensures
        match r {
            Some(he) => headers_from(b@, start as int) == Some(
                (pairs_view(he.0@), he.1 as int),
            ) && start <= he.1 <= b@.len(),
            None => headers_from(b@, start as int) is None,
        },
{
    let nb = b.len();
    let mut acc: Vec<(Vec<u8>, Vec<u8>)> = Vec::new();
    let mut i: usize = start;
    loop
        invariant
            nb == b@.len(),
            start <= i <= b@.len(),
            match headers_from(b@, i as int) {
                None => headers_from(b@, start as int) is None,
                Some(he) => headers_from(b@, start as int) == Some(
                    (pairs_view(acc@) + he.0, he.1),
                ),
            },
        decreases b@.len() - i,
    {
        proof {
            lemma_find_crlf(b@, i as int);
            lemma_headers_from_end(b@, i as int);
        }
        match find_crlf(b, i) {
            None => {
                return None;
            },
            Some(j) => {
                if j == i {
                    proof {
                        assert(headers_from(b@, i as int) == Some(
                            (Seq::<(Seq<u8>, Seq<u8>)>::empty(), i + 2int),
                        ));
                        assert(pairs_view(acc@) + Seq::<(Seq<u8>, Seq<u8>)>::empty()
                            =~= pairs_view(acc@));
                    }
                    return Some((acc, i + 2));
                }
                let line = sub_bytes(b, i, j);
                let ghost line_seq = b@.subrange(i as int, j as int);
                match find_colsp(line.as_slice(), 0) {
                    Some(c) => {
                        let name = sub_bytes(line.as_slice(), 0, c);
                        let value = sub_bytes(line.as_slice(), c + 2, line.len());
                        proof {
                            assert(name@ =~= line_seq.take(c as int));
                            assert(value@ =~= line_seq.skip(c as int + 2));
                            assert(header_of_line(line_seq) == Some((name@, value@)));
                        }
                        let ghost old_acc = acc@;
                        acc.push((name, value));
                        proof {
                            assert(pairs_view(acc@) =~= pairs_view(old_acc).push(
                                (acc@.last().0@, acc@.last().1@),
                            ));
                            match headers_from(b@, j + 2int) {
                                None => {},
                                Some(he) => {
                                    assert(pairs_view(acc@) + he.0 =~= pairs_view(old_acc) + (
                                    seq![(acc@.last().0@, acc@.last().1@)] + he.0));
                                },
                            }
                        }
                    },
                    None => {
                        proof {
                            assert(header_of_line(line_seq) is None);
                        }
                    },
                }
                i = j + 2;
            },
        }
    }
}

/// The body length a header list dictates is never negative.
pub proof fn lemma_body_len_nonneg(hs: Seq<(Seq<u8>, Seq<u8>)>)
    ensures
        body_len_of(hs) >= 0,
{
    match cl_value(hs) {
        None => {},
        Some(v) => {
            if is_digits(v) {
                lemma_dec_nonneg(v);
            }
        },
    }
}

/// A found CRLF position within a buffer is unchanged by appended bytes.
proof fn lemma_find_crlf_prefix(b1: Seq<u8>, b2: Seq<u8>, i: int)
    requires
        0 <= i,
        find_crlf_from(b1, i) is Some,
    ensures
        find_crlf_from(b1 + b2, i) == find_crlf_from(b1, i),
    decreases b1.len() - i,
{
    let b = b1 + b2;
    if i + 2 > b1.len() {
    } else if b1[i] == 13 && b1[i + 1] == 10 {
        assert(b[i] == 13 && b[i + 1] == 10);
    } else {
        assert(b[i] == b1[i] && b[i + 1] == b1[i + 1]);
        lemma_find_crlf_prefix(b1, b2, i + 1);
    }
}

/// A parsed header section within a buffer is unchanged by appended bytes.
proof fn lemma_headers_prefix(b1: Seq<u8>, b2: Seq<u8>, i: int)
    requires
        0 <= i,
        headers_from(b1, i) is Some,
    ensures
        headers_from(b1 + b2, i) == headers_from(b1, i),
    decreases b1.len() - i,
{
    let b = b1 + b2;
    lemma_find_crlf(b1, i);
    lemma_find_crlf_prefix(b1, b2, i);
    match find_crlf_from(b1, i) {
        None => {},
        Some(j) => {
            if j == i {
            } else {
                lemma_headers_prefix(b1, b2, j + 2);
                assert(b.subrange(i, j) =~= b1.subrange(i, j));
            }
        },
    }
}

/// Framing: a complete request parsed from the front of a buffer is
/// parsed identically, consuming exactly the same bytes, from that buffer
/// with anything appended. Back-to-back requests on one connection are
/// therefore split without byte loss or duplication: the first parse
/// consumes exactly the first request, and the bytes after it are parsed
/// on their own.
pub proof fn lemma_parse_prefix_stable(b1: Seq<u8>, b2: Seq<u8>)
    requires
        spec_parse(b1) is Some,
    ensures
        spec_parse(b1 + b2) == spec_parse(b1),
{
    let b = b1 + b2;
    lemma_find_crlf(b1, 0);
    lemma_find_crlf_prefix(b1, b2, 0);
    match find_crlf_from(b1, 0) {
        None => {},
        Some(j) => {
            lemma_headers_prefix(b1, b2, j + 2);
            lemma_headers_from_end(b1, j + 2);
            match headers_from(b1, j + 2) {
                None => {},
                Some(he) => {
                    let hs = he.0;
                    let e = he.1;
                    assert(b.take(j) =~= b1.take(j));
                    let cl = body_len_of(hs);
                    lemma_body_len_nonneg(hs);
                    assert(e + cl <= b1.len());
                    assert(b.subrange(e, e + cl) =~= b1.subrange(e, e + cl));
                },
            }
        },
    }
}

/// Parses one whole request from the front of a buffer.
///
/// Returns the parsed request and the exact count of bytes it occupies,
/// or `None` while the buffer does not yet hold a complete request. The
/// result agrees with [`spec_parse`] on the buffer's contents.
pub fn parse_request(b: &[u8]) -> (r: Option<(RawRequest, usize)>)
    ensures
        match r {
            Some(rn) => spec_parse(b@) == Some((req_model(rn.0), rn.1 as int)) && rn.1 <= b@.len(),
            None => spec_parse(b@) is None,
        },
{
    let nb = b.len();
    match find_crlf(b, 0) {
        None => None,
        Some(j) => {
            let line = sub_bytes(b, 0, j);
            let ghost line_seq = b@.take(j as int);
            proof {
                assert(line@ =~= line_seq);
            }
            match parse_headers(b, j + 2) {
                None => None,
                Some(he) => {
                    let (hs, e) = he;
                    let cl = body_length(&hs);
                    if cl <= b.len() - e {
                        let body = sub_bytes(b, e, e + cl);
                        let (method_token, path) = match find_sp(line.as_slice(), 0) {
                            None => (clone_bytes(line.as_slice()), Vec::new()),
                            Some(s1) => {
                                let m = sub_bytes(line.as_slice(), 0, s1);
                                let p = match find_sp(line.as_slice(), s1 + 1) {
                                    Some(s2) => sub_bytes(line.as_slice(), s1 + 1, s2),
                                    None => sub_bytes(line.as_slice(), s1 + 1, line.len()),
                                };
                                (m, p)
                            },
                        };
                        proof {
                            assert(method_token@ =~= req_line_method(line_seq));
                            assert(path@ =~= req_line_path(line_seq));
                        }
                        Some((RawRequest { method_token, path, headers: hs, body }, e + cl))
                    } else {
                        None
                    }
                },
            }
        },
    }
}

} // verus!
