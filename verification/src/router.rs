//! Per-method request routing over a radix-style trie of path segments.
//!
//! A route pattern is an ordered sequence of `/`-delimited segments, each
//! either a literal or a named capture (`:name` or `{name}`). One trie is
//! kept per HTTP method; each node has at most one capture edge and any
//! number of distinctly labelled literal edges. Lookup descends segment by
//! segment, preferring a literal edge over the capture edge at every level,
//! and accumulates the values bound to named captures along the way.

use vstd::prelude::*;

use crate::method::Method;

verus! {

use vstd::string::StringSliceAdditionalSpecFns;

/// One segment of a route pattern: a literal to match exactly, or a named
/// capture that matches any one path segment and binds it.
pub enum SegPat {
    Lit(Seq<u8>),
    Cap(Seq<u8>),
}

/// The `/`-delimited segments of a byte string, empties included, so that
/// `/a/b` splits into an empty segment, `a`, and `b`.
pub open spec fn split_segs(b: Seq<u8>) -> Seq<Seq<u8>>
    decreases b.len(),
{
    if b.len() == 0 {
        seq![Seq::<u8>::empty()]
    } else if b.last() == 47 {
        split_segs(b.drop_last()).push(Seq::<u8>::empty())
    } else {
        let r = split_segs(b.drop_last());
        r.update(r.len() - 1, r.last().push(b.last()))
    }
}

/// Splitting always yields at least one segment.
pub proof fn lemma_split_segs_len(b: Seq<u8>)
    ensures
        split_segs(b).len() >= 1,
    decreases b.len(),
{
    if b.len() > 0 {
        lemma_split_segs_len(b.drop_last());
    }
}

/// The pattern segment denoted by one raw pattern segment: `:name` and
/// `{name}` denote captures, anything else is a literal.
pub open spec fn seg_pat_of(seg: Seq<u8>) -> SegPat {
    if seg.len() >= 1 && seg[0] == 58 {
        SegPat::Cap(seg.drop_first())
    } else if seg.len() >= 2 && seg[0] == 123 && seg.last() == 125 {
        SegPat::Cap(seg.subrange(1, seg.len() - 1))
    } else {
        SegPat::Lit(seg)
    }
}

/// A raw pattern segment is well formed when it does not name an empty
/// capture.
pub open spec fn seg_pat_valid(seg: Seq<u8>) -> bool {
    seg_pat_of(seg) matches SegPat::Cap(nm) ==> nm.len() > 0
}

/// The pattern denoted by a whole pattern byte string.
pub open spec fn pattern_of(b: Seq<u8>) -> Seq<SegPat> {
    split_segs(b).map_values(|s: Seq<u8>| seg_pat_of(s))
}

/// A pattern byte string is well formed when every capture it names is
/// nonempty.
pub open spec fn pattern_valid(b: Seq<u8>) -> bool {
    forall|i: int| 0 <= i < split_segs(b).len() ==> seg_pat_valid(#[trigger] split_segs(b)[i])
}

/// Whether one pattern segment matches one concrete path segment.
pub open spec fn seg_matches(p: SegPat, t: Seq<u8>) -> bool {
    match p {
        SegPat::Lit(s) => s == t,
        SegPat::Cap(_) => true,
    }
}

/// Whether a pattern matches a concrete segment sequence: same length,
/// every segment matched.
pub open spec fn pat_matches(p: Seq<SegPat>, ts: Seq<Seq<u8>>) -> bool {
    p.len() == ts.len() && forall|i: int| 0 <= i < p.len() ==> seg_matches(#[trigger] p[i], ts[i])
}

/// The name/value pairs a pattern binds on a matching segment sequence, in
/// pattern order.
pub open spec fn captures_of(p: Seq<SegPat>, ts: Seq<Seq<u8>>) -> Seq<(Seq<u8>, Seq<u8>)>
    decreases p.len(),
{
    if p.len() == 0 || ts.len() == 0 {
        Seq::empty()
    } else {
        match p[0] {
            SegPat::Lit(_) => captures_of(p.drop_first(), ts.drop_first()),
            SegPat::Cap(nm) => seq![(nm, ts[0])] + captures_of(p.drop_first(), ts.drop_first()),
        }
    }
}

/// Route precedence: `p` beats `q` when, at the first level where one has a
/// literal and the other a capture, `p` has the literal.
pub open spec fn beats(p: Seq<SegPat>, q: Seq<SegPat>) -> bool
    decreases p.len(),
{
    if p.len() == 0 || q.len() == 0 {
        false
    } else {
        ||| (p[0] is Lit && q[0] is Cap)
        ||| ((p[0] is Lit <==> q[0] is Lit) && beats(p.drop_first(), q.drop_first()))
    }
}

/// One trie node: literal edges with distinct labels, at most one capture
/// edge with its capture name, and an optional handler for the pattern that
/// ends here.
pub struct RouteNode<H> {
    pub lits: Vec<(Vec<u8>, RouteNode<H>)>,
    pub cap: Option<(Vec<u8>, Box<RouteNode<H>>)>,
    pub leaf: Option<H>,
}

/// Well-formedness of a trie node: literal edge labels are pairwise
/// distinct, recursively at every node.
pub open spec fn wf_node<H>(n: RouteNode<H>) -> bool
    decreases n,
{
    &&& forall|i: int, j: int|
        0 <= i < n.lits@.len() && 0 <= j < n.lits@.len() && i != j ==> (#[trigger] n.lits@[i]).0@
            != (#[trigger] n.lits@[j]).0@
    &&& forall|i: int| 0 <= i < n.lits@.len() ==> wf_node((#[trigger] n.lits@[i]).1)
    &&& match n.cap {
        Some(c) => wf_node(*c.1),
        None => true,
    }
}

/// Whether the subtree at `n` maps pattern `p` to handler `h`.
pub open spec fn has_route<H>(n: RouteNode<H>, p: Seq<SegPat>, h: H) -> bool
    decreases p.len(),
{
    if p.len() == 0 {
        n.leaf == Some(h)
    } else {
        match p[0] {
            SegPat::Lit(s) => exists|i: int|
                0 <= i < n.lits@.len() && (#[trigger] n.lits@[i]).0@ == s && has_route(
                    n.lits@[i].1,
                    p.drop_first(),
                    h,
                ),
            SegPat::Cap(nm) => match n.cap {
                Some(c) => c.0@ == nm && has_route(*c.1, p.drop_first(), h),
                None => false,
            },
        }
    }
}

/// The byte-sequence view of a list of byte vectors.
pub open spec fn segs_view(v: Seq<Vec<u8>>) -> Seq<Seq<u8>> {
    v.map_values(|s: Vec<u8>| s@)
}

/// The byte-sequence view of a list of capture name/value pairs.
pub open spec fn pairs_view(v: Seq<(Vec<u8>, Vec<u8>)>) -> Seq<(Seq<u8>, Seq<u8>)> {
    v.map_values(|p: (Vec<u8>, Vec<u8>)| (p.0@, p.1@))
}

/// Splits a byte slice into its `/`-delimited segments, empties included.
pub(crate) fn split_bytes(b: &[u8]) -> (r: Vec<Vec<u8>>)
    ensures
        segs_view(r@) == split_segs(b@),
{
    let mut out: Vec<Vec<u8>> = Vec::new();
    let mut cur: Vec<u8> = Vec::new();
    let n = b.len();
    let mut i: usize = 0;
    while i < n
        invariant
            n == b@.len(),
            0 <= i <= n,
            segs_view(out@).push(cur@) =~= split_segs(b@.take(i as int)),
        decreases n - i,
    {
        let ghost prefix = b@.take(i as int);
        let ghost prefix1 = b@.take(i as int + 1);
        proof {
            assert(prefix1.drop_last() =~= prefix);
            assert(prefix1.last() == b@[i as int]);
        }
        if b[i] == 47 {
            out.push(cur);
            cur = Vec::new();
            proof {
                assert(segs_view(out@).push(cur@) =~= split_segs(prefix1));
            }
        } else {
            cur.push(b[i]);
            proof {
                let r = split_segs(prefix);
                assert(r.len() >= 1) by {
                    lemma_split_segs_len(prefix);
                }
                assert(split_segs(prefix1) =~= r.update(r.len() - 1, r.last().push(b@[i as int])));
                assert(segs_view(out@).push(cur@) =~= split_segs(prefix1));
            }
        }
        i += 1;
    }
    proof {
        assert(b@.take(n as int) =~= b@);
    }
    out.push(cur);
    proof {
        assert(segs_view(out@) =~= split_segs(b@));
    }
    out
}

/// Copies a byte slice into an owned vector.
pub(crate) fn clone_bytes(b: &[u8]) -> (r: Vec<u8>)
    ensures
        r@ == b@,
{
    let mut out: Vec<u8> = Vec::new();
    let n = b.len();
    let mut i: usize = 0;
    while i < n
        invariant
            n == b@.len(),
            0 <= i <= n,
            out@ == b@.take(i as int),
        decreases n - i,
    {
        out.push(b[i]);
        proof {
            assert(b@.take(i as int + 1) =~= b@.take(i as int).push(b@[i as int]));
        }
        i += 1;
    }
    proof {
        assert(b@.take(n as int) =~= b@);
    }
    out
}

/// Compares two byte strings.
pub(crate) fn bytes_eq(a: &[u8], b: &[u8]) -> (r: bool)
    ensures
        r == (a@ == b@),
{
    if a.len() != b.len() {
        assert(a@ != b@);
        return false;
    }
    let n = a.len();
    let mut i: usize = 0;
    while i < n
        invariant
            n == a@.len() == b@.len(),
            0 <= i <= n,
            forall|j: int| 0 <= j < i ==> a@[j] == b@[j],
        decreases n - i,
    {
        if a[i] != b[i] {
            return false;
        }
        i += 1;
    }
    assert(a@ =~= b@);
    true
}

/// Whether some literal edge of `n` is labelled `s` and its subtree maps
/// `qr` to `h`: the literal case of [`has_route`], one level down.
pub open spec fn lit_subtree_route<H>(n: RouteNode<H>, s: Seq<u8>, qr: Seq<SegPat>, h: H) -> bool {
    exists|j: int|
        0 <= j < n.lits@.len() && (#[trigger] n.lits@[j]).0@ == s && has_route(n.lits@[j].1, qr, h)
}

/// Finds the literal edge of `n` labelled `seg`, if any.
fn find_lit<H>(n: &RouteNode<H>, seg: &[u8]) -> (r: Option<usize>)
    ensures
        match r {
            Some(k) => k < n.lits@.len() && n.lits@[k as int].0@ == seg@,
            None => forall|j: int| 0 <= j < n.lits@.len() ==> (#[trigger] n.lits@[j]).0@ != seg@,
        },
{
    let m = n.lits.len();
    let mut k: usize = 0;
    while k < m
        invariant
            m == n.lits@.len(),
            0 <= k <= m,
            forall|j: int| 0 <= j < k ==> (#[trigger] n.lits@[j]).0@ != seg@,
        decreases m - k,
    {
        if bytes_eq(n.lits[k].0.as_slice(), seg) {
            return Some(k);
        }
        k += 1;
    }
    None
}

/// Precedence lifts over a shared level of equal kind.
proof fn lemma_beats_cons(a: SegPat, b: SegPat, p: Seq<SegPat>, q: Seq<SegPat>)
    requires
        a is Lit <==> b is Lit,
        beats(p, q),
    ensures
        beats(seq![a] + p, seq![b] + q),
{
    assert((seq![a] + p).drop_first() =~= p);
    assert((seq![b] + q).drop_first() =~= q);
}

/// Resolves one path suffix against the subtree at `n`: the result of the
/// precedence-maximal matching pattern, with the pattern itself returned as
/// a ghost witness.
fn lookup_node<'a, H>(n: &'a RouteNode<H>, segs: &Vec<Vec<u8>>, i: usize) -> (r: (
    Option<(&'a H, Vec<(Vec<u8>, Vec<u8>)>)>,
    Ghost<Seq<SegPat>>,
))
    requires
        wf_node(*n),
        i <= segs@.len(),
    ensures
        ({
            let rest = segs_view(segs@).skip(i as int);
            match r.0 {
                Some(hc) => {
                    &&& has_route(*n, r.1@, *hc.0)
                    &&& pat_matches(r.1@, rest)
                    &&& pairs_view(hc.1@) == captures_of(r.1@, rest)
                    &&& forall|q: Seq<SegPat>, h2: H|
                        #[trigger] has_route(*n, q, h2) && pat_matches(q, rest) && q != r.1@
                            ==> beats(r.1@, q)
                },
                None => forall|q: Seq<SegPat>, h2: H|
                    !(#[trigger] has_route(*n, q, h2) && pat_matches(q, rest)),
            }
        }),
    decreases segs@.len() - i, 1int,
{
    let ghost rest = segs_view(segs@).skip(i as int);
    if i == segs.len() {
        proof {
            assert(rest =~= Seq::<Seq<u8>>::empty());
        }
        match &n.leaf {
            Some(h) => {
                let caps: Vec<(Vec<u8>, Vec<u8>)> = Vec::new();
                let ghost p = Seq::<SegPat>::empty();
                proof {
                    assert(has_route(*n, p, *h));
                    assert(pairs_view(caps@) =~= captures_of(p, rest));
                    assert forall|q: Seq<SegPat>, h2: H|
                        #[trigger] has_route(*n, q, h2) && pat_matches(q, rest) && q != p
                            implies beats(p, q) by {
                        assert(q.len() == 0);
                        assert(q =~= p);
                    }
                }
                (Some((h, caps)), Ghost(p))
            },
            None => {
                proof {
                    assert forall|q: Seq<SegPat>, h2: H|
                        !(#[trigger] has_route(*n, q, h2) && pat_matches(q, rest)) by {
                        if pat_matches(q, rest) {
                            assert(q.len() == 0);
                        }
                    }
                }
                (None, Ghost(Seq::empty()))
            },
        }
    } else {
        let seg = &segs[i];
        let ghost rest1 = segs_view(segs@).skip(i as int + 1);
        proof {
            assert(rest.len() == segs@.len() - i);
            assert(rest[0] == segs@[i as int]@);
            assert(rest.drop_first() =~= rest1);
        }
        let found = find_lit(n, seg.as_slice());
        match found {
            Some(k) => {
                let (sub, gp) = lookup_node(&n.lits[k].1, segs, i + 1);
                match sub {
                    Some(hc) => {
                        let (h, caps) = hc;
                        let ghost p = seq![SegPat::Lit(seg@)] + gp@;
                        proof {
                            assert(p.drop_first() =~= gp@);
                            assert(has_route(*n, p, *h));
                            assert forall|x: int| 0 <= x < p.len() implies seg_matches(
                                #[trigger] p[x],
                                rest[x],
                            ) by {
                                if x > 0 {
                                    assert(p[x] == gp@[x - 1]);
                                    assert(rest[x] == rest1[x - 1]);
                                }
                            }
                            assert(pat_matches(p, rest));
                            assert(captures_of(p, rest) == captures_of(gp@, rest1));
                            assert forall|q: Seq<SegPat>, h2: H|
                                #[trigger] has_route(*n, q, h2) && pat_matches(q, rest) && q != p
                                    implies beats(p, q) by {
                                lemma_lookup_lit_max(*n, *seg, k as int, gp@, *h, q, h2, rest, rest1);
                            }
                        }
                        (Some((h, caps)), Ghost(p))
                    },
                    None => {
                        proof {
                            assert forall|qr: Seq<SegPat>, h2: H|
                                !(#[trigger] lit_subtree_route(*n, seg@, qr, h2) && pat_matches(
                                    qr,
                                    rest1,
                                )) by {
                                if lit_subtree_route(*n, seg@, qr, h2) {
                                    let j = choose|j: int|
                                        0 <= j < n.lits@.len() && (#[trigger] n.lits@[j]).0@
                                            == seg@ && has_route(n.lits@[j].1, qr, h2);
                                    assert(j == k);
                                }
                            }
                        }
                        lookup_cap(n, segs, i)
                    },
                }
            },
            None => {
                proof {
                    assert forall|qr: Seq<SegPat>, h2: H|
                        !(#[trigger] lit_subtree_route(*n, seg@, qr, h2) && pat_matches(
                            qr,
                            rest1,
                        )) by {}
                }
                lookup_cap(n, segs, i)
            },
        }
    }
}

/// Resolves one path suffix against the capture edge of `n`, under the
/// knowledge that no literal edge matches the head segment's subtree.
fn lookup_cap<'a, H>(n: &'a RouteNode<H>, segs: &Vec<Vec<u8>>, i: usize) -> (r: (
    Option<(&'a H, Vec<(Vec<u8>, Vec<u8>)>)>,
    Ghost<Seq<SegPat>>,
))
    requires
        wf_node(*n),
        i < segs@.len(),
        forall|qr: Seq<SegPat>, h2: H|
            !(#[trigger] lit_subtree_route(*n, segs@[i as int]@, qr, h2) && pat_matches(
                qr,
                segs_view(segs@).skip(i as int + 1),
            )),
    ensures
        ({
            let rest = segs_view(segs@).skip(i as int);
            match r.0 {
                Some(hc) => {
                    &&& has_route(*n, r.1@, *hc.0)
                    &&& pat_matches(r.1@, rest)
                    &&& pairs_view(hc.1@) == captures_of(r.1@, rest)
                    &&& forall|q: Seq<SegPat>, h2: H|
                        #[trigger] has_route(*n, q, h2) && pat_matches(q, rest) && q != r.1@
                            ==> beats(r.1@, q)
                },
                None => forall|q: Seq<SegPat>, h2: H|
                    !(#[trigger] has_route(*n, q, h2) && pat_matches(q, rest)),
            }
        }),
    decreases segs@.len() - i, 0int,
{
    let nlen = segs.len();
    let seg = &segs[i];
    let ghost rest = segs_view(segs@).skip(i as int);
    let ghost rest1 = segs_view(segs@).skip(i as int + 1);
    proof {
        assert(rest.len() == segs@.len() - i);
        assert(rest[0] == segs@[i as int]@);
        assert(rest.drop_first() =~= rest1);
    }
    match &n.cap {
        Some(c) => {
            let (sub, gp) = lookup_node(&c.1, segs, i + 1);
            match sub {
                Some(hc) => {
                    let (h, mut caps) = hc;
                    let mut caps2: Vec<(Vec<u8>, Vec<u8>)> = Vec::new();
                    caps2.push((clone_bytes(c.0.as_slice()), clone_bytes(seg.as_slice())));
                    caps2.append(&mut caps);
                    let ghost p = seq![SegPat::Cap(c.0@)] + gp@;
                    proof {
                        assert(p.drop_first() =~= gp@);
                        assert(has_route(*n, p, *h));
                        assert forall|x: int| 0 <= x < p.len() implies seg_matches(
                            #[trigger] p[x],
                            rest[x],
                        ) by {
                            if x > 0 {
                                assert(p[x] == gp@[x - 1]);
                                assert(rest[x] == rest1[x - 1]);
                            }
                        }
                        assert(pat_matches(p, rest));
                        assert(captures_of(p, rest) == seq![(c.0@, rest[0])] + captures_of(
                            gp@,
                            rest1,
                        ));
                        assert(pairs_view(caps2@) =~= captures_of(p, rest));
                        assert forall|q: Seq<SegPat>, h2: H|
                            #[trigger] has_route(*n, q, h2) && pat_matches(q, rest) && q != p
                                implies beats(p, q) by {
                            lemma_lookup_cap_max(*n, segs@[i as int], c.0@, gp@, *h, q, h2, rest, rest1);
                        }
                    }
                    (Some((h, caps2)), Ghost(p))
                },
                None => {
                    proof {
                        assert forall|q: Seq<SegPat>, h2: H|
                            !(#[trigger] has_route(*n, q, h2) && pat_matches(q, rest)) by {
                            if has_route(*n, q, h2) && pat_matches(q, rest) {
                                lemma_no_match_split(*n, segs@[i as int], q, h2, rest, rest1);
                            }
                        }
                    }
                    (None, Ghost(Seq::empty()))
                },
            }
        },
        None => {
            proof {
                assert forall|q: Seq<SegPat>, h2: H|
                    !(#[trigger] has_route(*n, q, h2) && pat_matches(q, rest)) by {
                    if has_route(*n, q, h2) && pat_matches(q, rest) {
                        lemma_no_match_split(*n, segs@[i as int], q, h2, rest, rest1);
                    }
                }
            }
            (None, Ghost(Seq::empty()))
        },
    }
}

/// A matching route through a node with a matched head segment either goes
/// through a literal edge labelled with that segment or through the capture
/// edge; used to refute a match when both are known to fail.
proof fn lemma_no_match_split<H>(
    n: RouteNode<H>,
    seg: Vec<u8>,
    q: Seq<SegPat>,
    h2: H,
    rest: Seq<Seq<u8>>,
    rest1: Seq<Seq<u8>>,
)
    requires
        rest.len() > 0,
        rest[0] == seg@,
        rest1 == rest.drop_first(),
        forall|qr: Seq<SegPat>, h3: H|
            !(#[trigger] lit_subtree_route(n, seg@, qr, h3) && pat_matches(qr, rest1)),
        match n.cap {
            Some(c) => forall|qr: Seq<SegPat>, h3: H|
                !(#[trigger] has_route(*c.1, qr, h3) && pat_matches(qr, rest1)),
            None => true,
        },
    ensures
        !(has_route(n, q, h2) && pat_matches(q, rest)),
{
    if has_route(n, q, h2) && pat_matches(q, rest) {
        assert(q.len() == rest.len());
        let qr = q.drop_first();
        assert(seg_matches(q[0], rest[0]));
        lemma_pat_matches_drop(q, rest);
        match q[0] {
            SegPat::Lit(s) => {
                assert(s == seg@);
                assert(lit_subtree_route(n, seg@, qr, h2));
            },
            SegPat::Cap(nm) => {
                match n.cap {
                    Some(c) => {
                        assert(has_route(*c.1, qr, h2));
                    },
                    None => {},
                }
            },
        }
    }
}

/// A pattern match survives dropping the first segment on both sides.
proof fn lemma_pat_matches_drop(q: Seq<SegPat>, rest: Seq<Seq<u8>>)
    requires
        pat_matches(q, rest),
        q.len() > 0,
    ensures
        pat_matches(q.drop_first(), rest.drop_first()),
{
    let qr = q.drop_first();
    let rr = rest.drop_first();
    assert forall|x: int| 0 <= x < qr.len() implies seg_matches(#[trigger] qr[x], rr[x]) by {
        assert(qr[x] == q[x + 1]);
        assert(rr[x] == rest[x + 1]);
        assert(seg_matches(q[x + 1], rest[x + 1]));
    }
}

/// The pattern found through a literal edge beats every other matching
/// pattern through the same node.
proof fn lemma_lookup_lit_max<H>(
    n: RouteNode<H>,
    seg: Vec<u8>,
    k: int,
    gp: Seq<SegPat>,
    h: H,
    q: Seq<SegPat>,
    h2: H,
    rest: Seq<Seq<u8>>,
    rest1: Seq<Seq<u8>>,
)
    requires
        wf_node(n),
        0 <= k < n.lits@.len(),
        n.lits@[k].0@ == seg@,
        rest.len() > 0,
        rest[0] == seg@,
        rest1 == rest.drop_first(),
        has_route(n, q, h2),
        pat_matches(q, rest),
        q != seq![SegPat::Lit(seg@)] + gp,
        // induction hypothesis from the recursive lookup on the subtree
        forall|qr: Seq<SegPat>, h3: H|
            #[trigger] has_route(n.lits@[k].1, qr, h3) && pat_matches(qr, rest1) && qr != gp
                ==> beats(gp, qr),
    ensures
        beats(seq![SegPat::Lit(seg@)] + gp, q),
{
    let p = seq![SegPat::Lit(seg@)] + gp;
    assert(q.len() == rest.len());
    let qr = q.drop_first();
    assert(q =~= seq![q[0]] + qr);
    assert(seg_matches(q[0], rest[0]));
    lemma_pat_matches_drop(q, rest);
    match q[0] {
        SegPat::Lit(s) => {
            assert(s == seg@);
            let j = choose|j: int|
                0 <= j < n.lits@.len() && (#[trigger] n.lits@[j]).0@ == s && has_route(
                    n.lits@[j].1,
                    qr,
                    h2,
                );
            assert(j == k);
            assert(has_route(n.lits@[k].1, qr, h2));
            assert(qr != gp) by {
                if qr == gp {
                    assert(q =~= p);
                }
            }
            assert(beats(gp, qr));
            lemma_beats_cons(SegPat::Lit(seg@), SegPat::Lit(s), gp, qr);
            assert(p =~= seq![SegPat::Lit(seg@)] + gp);
        },
        SegPat::Cap(nm) => {
            assert(p[0] is Lit && q[0] is Cap);
            assert(beats(p, q));
        },
    }
}

/// The pattern found through the capture edge beats every other matching
/// pattern through the same node, once no literal edge matches.
proof fn lemma_lookup_cap_max<H>(
    n: RouteNode<H>,
    seg: Vec<u8>,
    nm: Seq<u8>,
    gp: Seq<SegPat>,
    h: H,
    q: Seq<SegPat>,
    h2: H,
    rest: Seq<Seq<u8>>,
    rest1: Seq<Seq<u8>>,
)
    requires
        wf_node(n),
        n.cap is Some,
        n.cap->Some_0.0@ == nm,
        rest.len() > 0,
        rest[0] == seg@,
        rest1 == rest.drop_first(),
        has_route(n, q, h2),
        pat_matches(q, rest),
        q != seq![SegPat::Cap(nm)] + gp,
        forall|qr: Seq<SegPat>, h3: H|
            !(#[trigger] lit_subtree_route(n, seg@, qr, h3) && pat_matches(qr, rest1)),
        // induction hypothesis from the recursive lookup on the capture subtree
        forall|qr: Seq<SegPat>, h3: H|
            #[trigger] has_route(*n.cap->Some_0.1, qr, h3) && pat_matches(qr, rest1) && qr != gp
                ==> beats(gp, qr),
    ensures
        beats(seq![SegPat::Cap(nm)] + gp, q),
{
    let p = seq![SegPat::Cap(nm)] + gp;
    assert(q.len() == rest.len());
    let qr = q.drop_first();
    assert(q =~= seq![q[0]] + qr);
    assert(seg_matches(q[0], rest[0]));
    lemma_pat_matches_drop(q, rest);
    match q[0] {
        SegPat::Lit(s) => {
            assert(s == seg@);
            assert(lit_subtree_route(n, seg@, qr, h2));
            assert(false);
        },
        SegPat::Cap(nm2) => {
            assert(nm2 == nm);
            assert(has_route(*n.cap->Some_0.1, qr, h2));
            assert(qr != gp) by {
                if qr == gp {
                    assert(q =~= p);
                }
            }
            assert(beats(gp, qr));
            lemma_beats_cons(SegPat::Cap(nm), SegPat::Cap(nm2), gp, qr);
        },
    }
}

/// The pattern denoted by a sequence of raw pattern segments.
pub open spec fn pats_of(ts: Seq<Seq<u8>>) -> Seq<SegPat> {
    ts.map_values(|s: Seq<u8>| seg_pat_of(s))
}

/// Why a route registration is refused: a malformed pattern (an empty
/// capture name), a pattern already registered for the same method, or a
/// capture name that clashes with one already registered at the same level.
#[derive(Clone, Copy, Debug, PartialEq, Eq, Structural)]
pub enum RouteError {
    InvalidPattern,
    DuplicateRoute,
    CaptureConflict,
}

/// Whether inserting pattern `p` under `n` would hit a handler already
/// registered for the same pattern.
pub open spec fn insert_dup<H>(n: RouteNode<H>, p: Seq<SegPat>) -> bool
    decreases p.len(),
{
    if p.len() == 0 {
        n.leaf is Some
    } else {
        match p[0] {
            SegPat::Lit(s) => exists|j: int|
                0 <= j < n.lits@.len() && (#[trigger] n.lits@[j]).0@ == s && insert_dup(
                    n.lits@[j].1,
                    p.drop_first(),
                ),
            SegPat::Cap(nm) => match n.cap {
                Some(c) => c.0@ == nm && insert_dup(*c.1, p.drop_first()),
                None => false,
            },
        }
    }
}

/// Whether inserting pattern `p` under `n` would put a capture with one
/// name at a level that already has a capture with another name.
pub open spec fn insert_conflict<H>(n: RouteNode<H>, p: Seq<SegPat>) -> bool
    decreases p.len(),
{
    if p.len() == 0 {
        false
    } else {
        match p[0] {
            SegPat::Lit(s) => exists|j: int|
                0 <= j < n.lits@.len() && (#[trigger] n.lits@[j]).0@ == s && insert_conflict(
                    n.lits@[j].1,
                    p.drop_first(),
                ),
            SegPat::Cap(nm) => match n.cap {
                Some(c) => c.0@ != nm || insert_conflict(*c.1, p.drop_first()),
                None => false,
            },
        }
    }
}

/// Copies the byte range `[from, to)` of a slice.
pub(crate) fn sub_bytes(b: &[u8], from: usize, to: usize) -> (r: Vec<u8>)
    requires
        from <= to <= b@.len(),
    ensures
        r@ == b@.subrange(from as int, to as int),
{
    let mut out: Vec<u8> = Vec::new();
    let mut i: usize = from;
    while i < to
        invariant
            from <= i <= to <= b@.len(),
            out@ == b@.subrange(from as int, i as int),
        decreases to - i,
    {
        out.push(b[i]);
        proof {
            assert(b@.subrange(from as int, i as int + 1) =~= b@.subrange(
                from as int,
                i as int,
            ).push(b@[i as int]));
        }
        i += 1;
    }
    out
}

/// Splits one raw pattern segment into its kind and its payload: for a
/// capture, true and the capture name; for a literal, false and the
/// segment itself.
fn parse_seg(seg: &[u8]) -> (r: (bool, Vec<u8>))
    ensures
        if r.0 {
            seg_pat_of(seg@) == SegPat::Cap(r.1@)
        } else {
            seg_pat_of(seg@) == SegPat::Lit(seg@) && r.1@ == seg@
        },
{
    let n = seg.len();
    if n >= 1 && seg[0] == 58 {
        let name = sub_bytes(seg, 1, n);
        proof {
            assert(seg@.subrange(1, n as int) =~= seg@.drop_first());
        }
        (true, name)
    } else if n >= 2 && seg[0] == 123 && seg[n - 1] == 125 {
        let name = sub_bytes(seg, 1, n - 1);
        (true, name)
    } else {
        (false, clone_bytes(seg))
    }
}

/// Checks that one raw pattern segment does not name an empty capture.
fn seg_valid(seg: &[u8]) -> (r: bool)
    ensures
        r == seg_pat_valid(seg@),
{
    let p = parse_seg(seg);
    if p.0 {
        p.1.len() > 0
    } else {
        true
    }
}

/// A chain of fresh nodes holding exactly the pattern of `segs[i..]`.
fn build_chain<H>(segs: &Vec<Vec<u8>>, i: usize, h: H) -> (r: RouteNode<H>)
    requires
        i <= segs@.len(),
    ensures
        wf_node(r),
        forall|q: Seq<SegPat>, h2: H| #[trigger]
            has_route(r, q, h2) <==> (q == pats_of(segs_view(segs@).skip(i as int)) && h2 == h),
    decreases segs@.len() - i,
{
    let ghost pats = pats_of(segs_view(segs@).skip(i as int));
    if i == segs.len() {
        let r = RouteNode { lits: Vec::new(), cap: None, leaf: Some(h) };
        proof {
            assert(pats =~= Seq::<SegPat>::empty());
            assert forall|q: Seq<SegPat>, h2: H| #[trigger]
                has_route(r, q, h2) <==> (q == pats && h2 == h) by {
                if q.len() == 0 {
                    assert(q =~= pats);
                } else {
                    match q[0] {
                        SegPat::Lit(_) => {},
                        SegPat::Cap(_) => {},
                    }
                }
            }
        }
        r
    } else {
        let nlen = segs.len();
        let seg = &segs[i];
        let ghost pats1 = pats_of(segs_view(segs@).skip(i as int + 1));
        proof {
            assert(pats.len() == segs@.len() - i);
            assert(pats[0] == seg_pat_of(segs@[i as int]@));
            assert(pats.drop_first() =~= pats1);
        }
        let sub = build_chain(segs, i + 1, h);
        let (is_cap, payload) = parse_seg(seg.as_slice());
        if is_cap {
            let r = RouteNode { lits: Vec::new(), cap: Some((payload, Box::new(sub))), leaf: None };
            proof {
                assert(pats =~= seq![pats[0]] + pats1);
                assert forall|q: Seq<SegPat>, h2: H| #[trigger]
                    has_route(r, q, h2) <==> (q == pats && h2 == h) by {
                    if q.len() == 0 {
                        assert(q != pats);
                    } else {
                        match q[0] {
                            SegPat::Lit(_) => {
                                assert(q != pats);
                            },
                            SegPat::Cap(nm) => {
                                let qr = q.drop_first();
                                assert(q =~= seq![q[0]] + qr);
                                if has_route(r, q, h2) {
                                    assert(nm == payload@);
                                    assert(has_route(sub, qr, h2));
                                    assert(qr == pats1 && h2 == h);
                                    assert(q =~= pats);
                                }
                                if q == pats && h2 == h {
                                    assert(q[0] == pats[0]);
                                    assert(qr =~= pats1);
                                    assert(has_route(sub, pats1, h));
                                    assert(has_route(r, q, h2));
                                }
                            },
                        }
                    }
                }
            }
            r
        } else {
            let mut lits: Vec<(Vec<u8>, RouteNode<H>)> = Vec::new();
            lits.push((payload, sub));
            let r = RouteNode { lits, cap: None, leaf: None };
            proof {
                assert(pats =~= seq![pats[0]] + pats1);
                assert forall|q: Seq<SegPat>, h2: H| #[trigger]
                    has_route(r, q, h2) <==> (q == pats && h2 == h) by {
                    if q.len() == 0 {
                        assert(q != pats);
                    } else {
                        match q[0] {
                            SegPat::Lit(s) => {
                                let qr = q.drop_first();
                                assert(q =~= seq![q[0]] + qr);
                                if has_route(r, q, h2) {
                                    let j = choose|j: int|
                                        0 <= j < r.lits@.len() && (#[trigger] r.lits@[j]).0@ == s
                                            && has_route(r.lits@[j].1, qr, h2);
                                    assert(j == 0);
                                    assert(s == payload@);
                                    assert(has_route(sub, qr, h2));
                                    assert(qr == pats1 && h2 == h);
                                    assert(q =~= pats);
                                }
                                if q == pats && h2 == h {
                                    assert(q[0] == pats[0]);
                                    assert(qr =~= pats1);
                                    assert(has_route(sub, pats1, h));
                                    assert(r.lits@[0].0@ == s && has_route(r.lits@[0].1, qr, h2));
                                }
                            },
                            SegPat::Cap(_) => {
                                assert(q != pats);
                            },
                        }
                    }
                }
            }
            r
        }
    }
}

/// Inserts pattern `segs[i..]` with handler `h` under `n`; on success the
/// returned node holds exactly the old routes plus the new one, and on
/// failure exactly the old routes, with the error naming the reason.
fn insert_node<H>(n: RouteNode<H>, segs: &Vec<Vec<u8>>, i: usize, h: H) -> (r: (
    RouteNode<H>,
    Option<RouteError>,
))
    requires
        wf_node(n),
        i <= segs@.len(),
    ensures
        wf_node(r.0),
        ({
            let pats = pats_of(segs_view(segs@).skip(i as int));
            match r.1 {
                None => {
                    &&& !insert_dup(n, pats)
                    &&& !insert_conflict(n, pats)
                    &&& forall|q: Seq<SegPat>, h2: H| #[trigger]
                        has_route(r.0, q, h2) <==> (has_route(n, q, h2) || (q == pats && h2 == h))
                },
                Some(RouteError::DuplicateRoute) => insert_dup(n, pats) && (forall|
                    q: Seq<SegPat>,
                    h2: H,
                | #[trigger]
                    has_route(r.0, q, h2) <==> has_route(n, q, h2)),
                Some(RouteError::CaptureConflict) => insert_conflict(n, pats) && (forall|
                    q: Seq<SegPat>,
                    h2: H,
                | #[trigger]
                    has_route(r.0, q, h2) <==> has_route(n, q, h2)),
                Some(RouteError::InvalidPattern) => false,
            }
        }),
    decreases segs@.len() - i,
{
    let ghost pats = pats_of(segs_view(segs@).skip(i as int));
    if i == segs.len() {
        proof {
            assert(pats =~= Seq::<SegPat>::empty());
        }
        match &n.leaf {
            Some(_) => (n, Some(RouteError::DuplicateRoute)),
            None => {
                let r = RouteNode { lits: n.lits, cap: n.cap, leaf: Some(h) };
                proof {
                    assert(r.lits == n.lits);
                    assert(r.cap == n.cap);
                    assert(n.leaf is None);
                    assert forall|q: Seq<SegPat>, h2: H| #[trigger]
                        has_route(r, q, h2) <==> (has_route(n, q, h2) || (q == pats && h2 == h))
                        by {
                        if q.len() == 0 {
                            assert(q =~= pats);
                        } else {
                            match q[0] {
                                SegPat::Lit(t) => {
                                    assert(q != pats);
                                    assert(has_route(r, q, h2) <==> has_route(n, q, h2)) by {
                                        if has_route(r, q, h2) {
                                            let j = choose|j: int|
                                                0 <= j < r.lits@.len() && (#[trigger] r.lits@[j]).0@
                                                    == t && has_route(r.lits@[j].1, q.drop_first(), h2);
                                            assert(n.lits@[j].0@ == t && has_route(n.lits@[j].1, q.drop_first(), h2));
                                        }
                                        if has_route(n, q, h2) {
                                            let j = choose|j: int|
                                                0 <= j < n.lits@.len() && (#[trigger] n.lits@[j]).0@
                                                    == t && has_route(n.lits@[j].1, q.drop_first(), h2);
                                            assert(r.lits@[j].0@ == t && has_route(r.lits@[j].1, q.drop_first(), h2));
                                        }
                                    }
                                },
                                SegPat::Cap(_) => {
                                    assert(q != pats);
                                },
                            }
                        }
                    }
                }
                (r, None)
            },
        }
    } else {
        let nlen = segs.len();
        let mut n = n;
        let ghost n0 = n;
        let seg = &segs[i];
        let ghost pats1 = pats_of(segs_view(segs@).skip(i as int + 1));
        proof {
            assert(pats.len() == segs@.len() - i);
            assert(pats[0] == seg_pat_of(segs@[i as int]@));
            assert(pats.drop_first() =~= pats1);
        }
        let (is_cap, payload) = parse_seg(seg.as_slice());
        if is_cap {
            let ghost nm = payload@;
            let taken = n.cap.take();
            match taken {
                Some(c) => {
                    let (cnm, csub) = c;
                    if bytes_eq(cnm.as_slice(), payload.as_slice()) {
                        let ghost old_sub = *csub;
                        let (sub2, err) = insert_node(*csub, segs, i + 1, h);
                        n.cap = Some((cnm, Box::new(sub2)));
                        proof {
                            lemma_routes_cap_update(n, n0, old_sub, sub2, nm, pats, pats1, h, err);
                        }
                        (n, err)
                    } else {
                        n.cap = Some((cnm, csub));
                        proof {
                            assert(n == n0);
                            assert(insert_conflict(n0, pats));
                        }
                        (n, Some(RouteError::CaptureConflict))
                    }
                },
                None => {
                    let sub = build_chain(segs, i + 1, h);
                    n.cap = Some((payload, Box::new(sub)));
                    proof {
                        lemma_routes_cap_fresh(n, n0, sub, nm, pats, pats1, h);
                    }
                    (n, None)
                },
            }
        } else {
            match find_lit(&n, seg.as_slice()) {
                Some(k) => {
                    let mut pair = (Vec::new(), RouteNode::empty());
                    n.lits.set_and_swap(k, &mut pair);
                    let (label, child) = pair;
                    let ghost old_child = child;
                    let (child2, err) = insert_node(child, segs, i + 1, h);
                    let mut pair2 = (label, child2);
                    let ghost child2g = child2;
                    n.lits.set_and_swap(k, &mut pair2);
                    proof {
                        assert(n.lits@ =~= n0.lits@.update(
                            k as int,
                            (n0.lits@[k as int].0, child2g),
                        ));
                        lemma_routes_lit_update(
                            n,
                            n0,
                            k as int,
                            old_child,
                            child2g,
                            seg@,
                            pats,
                            pats1,
                            h,
                            err,
                        );
                    }
                    (n, err)
                },
                None => {
                    let sub = build_chain(segs, i + 1, h);
                    let ghost subg = sub;
                    let label = clone_bytes(seg.as_slice());
                    n.lits.push((label, sub));
                    proof {
                        lemma_routes_lit_fresh(n, n0, subg, seg@, pats, pats1, h);
                    }
                    (n, None)
                },
            }
        }
    }
}

/// After replacing the capture subtree (same capture name), the node's
/// routes change exactly as the subtree's routes changed, and a duplicate
/// or conflict in the subtree is one in the node.
proof fn lemma_routes_cap_update<H>(
    nn: RouteNode<H>,
    n0: RouteNode<H>,
    old_sub: RouteNode<H>,
    sub2: RouteNode<H>,
    nm: Seq<u8>,
    pats: Seq<SegPat>,
    pats1: Seq<SegPat>,
    h: H,
    err: Option<RouteError>,
)
    requires
        wf_node(n0),
        wf_node(sub2),
        n0.cap is Some,
        n0.cap->Some_0.0@ == nm,
        *n0.cap->Some_0.1 == old_sub,
        nn.lits == n0.lits,
        nn.leaf == n0.leaf,
        nn.cap is Some,
        nn.cap->Some_0.0@ == nm,
        *nn.cap->Some_0.1 == sub2,
        pats.len() > 0,
        pats[0] == SegPat::Cap(nm),
        pats.drop_first() == pats1,
        match err {
            None => {
                &&& !insert_dup(old_sub, pats1)
                &&& !insert_conflict(old_sub, pats1)
                &&& forall|q: Seq<SegPat>, h2: H| #[trigger]
                    has_route(sub2, q, h2) <==> (has_route(old_sub, q, h2) || (q == pats1 && h2
                        == h))
            },
            Some(RouteError::DuplicateRoute) => insert_dup(old_sub, pats1) && (forall|
                q: Seq<SegPat>,
                h2: H,
            | #[trigger]
                has_route(sub2, q, h2) <==> has_route(old_sub, q, h2)),
            Some(RouteError::CaptureConflict) => insert_conflict(old_sub, pats1) && (forall|
                q: Seq<SegPat>,
                h2: H,
            | #[trigger]
                has_route(sub2, q, h2) <==> has_route(old_sub, q, h2)),
            Some(RouteError::InvalidPattern) => false,
        },
    ensures
        wf_node(nn),
        match err {
            None => {
                &&& !insert_dup(n0, pats)
                &&& !insert_conflict(n0, pats)
                &&& forall|q: Seq<SegPat>, h2: H| #[trigger]
                    has_route(nn, q, h2) <==> (has_route(n0, q, h2) || (q == pats && h2 == h))
            },
            Some(RouteError::DuplicateRoute) => insert_dup(n0, pats) && (forall|
                q: Seq<SegPat>,
                h2: H,
            | #[trigger]
                has_route(nn, q, h2) <==> has_route(n0, q, h2)),
            Some(RouteError::CaptureConflict) => insert_conflict(n0, pats) && (forall|
                q: Seq<SegPat>,
                h2: H,
            | #[trigger]
                has_route(nn, q, h2) <==> has_route(n0, q, h2)),
            Some(RouteError::InvalidPattern) => false,
        },
{
    assert(pats =~= seq![pats[0]] + pats1);
    assert forall|q: Seq<SegPat>, h2: H| #[trigger]
        has_route(nn, q, h2) <==> (has_route(n0, q, h2) || (match err {
            None => q == pats && h2 == h,
            _ => false,
        })) by {
        if q.len() == 0 {
            assert(q != pats);
            assert(has_route(nn, q, h2) <==> has_route(n0, q, h2));
        } else {
            let qr = q.drop_first();
            match q[0] {
                SegPat::Lit(t) => {
                    assert(q != pats);
                    assert(has_route(nn, q, h2) <==> has_route(n0, q, h2)) by {
                        if has_route(nn, q, h2) {
                            let j = choose|j: int|
                                0 <= j < nn.lits@.len() && (#[trigger] nn.lits@[j]).0@ == t
                                    && has_route(nn.lits@[j].1, qr, h2);
                            assert(n0.lits@[j].0@ == t && has_route(n0.lits@[j].1, qr, h2));
                        }
                        if has_route(n0, q, h2) {
                            let j = choose|j: int|
                                0 <= j < n0.lits@.len() && (#[trigger] n0.lits@[j]).0@ == t
                                    && has_route(n0.lits@[j].1, qr, h2);
                            assert(nn.lits@[j].0@ == t && has_route(nn.lits@[j].1, qr, h2));
                        }
                    }
                },
                SegPat::Cap(nm2) => {
                    assert(q =~= seq![q[0]] + qr);
                    if nm2 == nm {
                        assert(has_route(nn, q, h2) <==> has_route(sub2, qr, h2));
                        assert(has_route(n0, q, h2) <==> has_route(old_sub, qr, h2));
                        if qr == pats1 {
                            assert(q =~= pats);
                        }
                        if q == pats {
                            assert(qr == pats1);
                        }
                    } else {
                        assert(q != pats);
                        assert(!has_route(nn, q, h2));
                        assert(!has_route(n0, q, h2));
                    }
                },
            }
        }
    }
}

/// Adding a fresh capture edge adds exactly the chain's routes under the
/// new capture name.
proof fn lemma_routes_cap_fresh<H>(
    nn: RouteNode<H>,
    n0: RouteNode<H>,
    chain: RouteNode<H>,
    nm: Seq<u8>,
    pats: Seq<SegPat>,
    pats1: Seq<SegPat>,
    h: H,
)
    requires
        wf_node(n0),
        wf_node(chain),
        n0.cap is None,
        nn.lits == n0.lits,
        nn.leaf == n0.leaf,
        nn.cap is Some,
        nn.cap->Some_0.0@ == nm,
        *nn.cap->Some_0.1 == chain,
        pats.len() > 0,
        pats[0] == SegPat::Cap(nm),
        pats.drop_first() == pats1,
        forall|q: Seq<SegPat>, h2: H| #[trigger]
            has_route(chain, q, h2) <==> (q == pats1 && h2 == h),
    ensures
        wf_node(nn),
        !insert_dup(n0, pats),
        !insert_conflict(n0, pats),
        forall|q: Seq<SegPat>, h2: H| #[trigger]
            has_route(nn, q, h2) <==> (has_route(n0, q, h2) || (q == pats && h2 == h)),
{
    assert(pats =~= seq![pats[0]] + pats1);
    assert forall|q: Seq<SegPat>, h2: H| #[trigger]
        has_route(nn, q, h2) <==> (has_route(n0, q, h2) || (q == pats && h2 == h)) by {
        if q.len() == 0 {
            assert(q != pats);
            assert(has_route(nn, q, h2) <==> has_route(n0, q, h2));
        } else {
            let qr = q.drop_first();
            match q[0] {
                SegPat::Lit(t) => {
                    assert(q != pats);
                    assert(has_route(nn, q, h2) <==> has_route(n0, q, h2)) by {
                        if has_route(nn, q, h2) {
                            let j = choose|j: int|
                                0 <= j < nn.lits@.len() && (#[trigger] nn.lits@[j]).0@ == t
                                    && has_route(nn.lits@[j].1, qr, h2);
                            assert(n0.lits@[j].0@ == t && has_route(n0.lits@[j].1, qr, h2));
                        }
                        if has_route(n0, q, h2) {
                            let j = choose|j: int|
                                0 <= j < n0.lits@.len() && (#[trigger] n0.lits@[j]).0@ == t
                                    && has_route(n0.lits@[j].1, qr, h2);
                            assert(nn.lits@[j].0@ == t && has_route(nn.lits@[j].1, qr, h2));
                        }
                    }
                },
                SegPat::Cap(nm2) => {
                    assert(q =~= seq![q[0]] + qr);
                    assert(!has_route(n0, q, h2));
                    if nm2 == nm {
                        assert(has_route(nn, q, h2) <==> has_route(chain, qr, h2));
                        if qr == pats1 {
                            assert(q =~= pats);
                        }
                        if q == pats {
                            assert(qr == pats1);
                        }
                    } else {
                        assert(q != pats);
                        assert(!has_route(nn, q, h2));
                    }
                },
            }
        }
    }
}

/// After replacing the subtree of the literal edge labelled `s`, the
/// node's routes change exactly as the subtree's routes changed, and a
/// duplicate or conflict in the subtree is one in the node.
proof fn lemma_routes_lit_update<H>(
    nn: RouteNode<H>,
    n0: RouteNode<H>,
    k: int,
    old_child: RouteNode<H>,
    child2: RouteNode<H>,
    s: Seq<u8>,
    pats: Seq<SegPat>,
    pats1: Seq<SegPat>,
    h: H,
    err: Option<RouteError>,
)
    requires
        wf_node(n0),
        wf_node(child2),
        0 <= k < n0.lits@.len(),
        n0.lits@[k].0@ == s,
        n0.lits@[k].1 == old_child,
        nn.lits@ == n0.lits@.update(k, (n0.lits@[k].0, child2)),
        nn.cap == n0.cap,
        nn.leaf == n0.leaf,
        pats.len() > 0,
        pats[0] == SegPat::Lit(s),
        pats.drop_first() == pats1,
        match err {
            None => {
                &&& !insert_dup(old_child, pats1)
                &&& !insert_conflict(old_child, pats1)
                &&& forall|q: Seq<SegPat>, h2: H| #[trigger]
                    has_route(child2, q, h2) <==> (has_route(old_child, q, h2) || (q == pats1 && h2
                        == h))
            },
            Some(RouteError::DuplicateRoute) => insert_dup(old_child, pats1) && (forall|
                q: Seq<SegPat>,
                h2: H,
            | #[trigger]
                has_route(child2, q, h2) <==> has_route(old_child, q, h2)),
            Some(RouteError::CaptureConflict) => insert_conflict(old_child, pats1) && (forall|
                q: Seq<SegPat>,
                h2: H,
            | #[trigger]
                has_route(child2, q, h2) <==> has_route(old_child, q, h2)),
            Some(RouteError::InvalidPattern) => false,
        },
    ensures
        wf_node(nn),
        match err {
            None => {
                &&& !insert_dup(n0, pats)
                &&& !insert_conflict(n0, pats)
                &&& forall|q: Seq<SegPat>, h2: H| #[trigger]
                    has_route(nn, q, h2) <==> (has_route(n0, q, h2) || (q == pats && h2 == h))
            },
            Some(RouteError::DuplicateRoute) => insert_dup(n0, pats) && (forall|
                q: Seq<SegPat>,
                h2: H,
            | #[trigger]
                has_route(nn, q, h2) <==> has_route(n0, q, h2)),
            Some(RouteError::CaptureConflict) => insert_conflict(n0, pats) && (forall|
                q: Seq<SegPat>,
                h2: H,
            | #[trigger]
                has_route(nn, q, h2) <==> has_route(n0, q, h2)),
            Some(RouteError::InvalidPattern) => false,
        },
{
    assert(nn.lits@.len() == n0.lits@.len());
    assert(nn.lits@[k].0 == n0.lits@[k].0);
    assert(forall|j: int| 0 <= j < nn.lits@.len() && j != k ==> nn.lits@[j] == n0.lits@[j]);
    assert(wf_node(nn)) by {
        assert(forall|j: int| 0 <= j < nn.lits@.len() ==> (#[trigger] nn.lits@[j]).0@
            == n0.lits@[j].0@);
        assert(forall|j: int| 0 <= j < nn.lits@.len() ==> wf_node((#[trigger] nn.lits@[j]).1));
    }
    // uniqueness of the edge labelled s, on both old and new node
    assert(forall|j: int| 0 <= j < n0.lits@.len() && j != k ==> (#[trigger] n0.lits@[j]).0@ != s);
    // transfer of the error predicates
    match err {
        None => {},
        Some(RouteError::DuplicateRoute) => {
            assert(insert_dup(n0, pats)) by {
                assert(n0.lits@[k].0@ == s && insert_dup(n0.lits@[k].1, pats1));
            }
        },
        Some(RouteError::CaptureConflict) => {
            assert(insert_conflict(n0, pats)) by {
                assert(n0.lits@[k].0@ == s && insert_conflict(n0.lits@[k].1, pats1));
            }
        },
        Some(RouteError::InvalidPattern) => {},
    }
    if err is None {
        assert(!insert_dup(n0, pats)) by {
            if insert_dup(n0, pats) {
                let j = choose|j: int|
                    0 <= j < n0.lits@.len() && (#[trigger] n0.lits@[j]).0@ == s && insert_dup(
                        n0.lits@[j].1,
                        pats1,
                    );
                assert(j == k);
            }
        }
        assert(!insert_conflict(n0, pats)) by {
            if insert_conflict(n0, pats) {
                let j = choose|j: int|
                    0 <= j < n0.lits@.len() && (#[trigger] n0.lits@[j]).0@ == s
                        && insert_conflict(n0.lits@[j].1, pats1);
                assert(j == k);
            }
        }
    }
    assert forall|q: Seq<SegPat>, h2: H| #[trigger]
        has_route(nn, q, h2) <==> (has_route(n0, q, h2) || (match err {
            None => q == pats && h2 == h,
            _ => false,
        })) by {
        if q.len() == 0 {
            assert(q != pats);
        } else {
            let qr = q.drop_first();
            match q[0] {
                SegPat::Lit(t) => {
                    if t == s {
                        assert(q == pats <==> qr == pats1) by {
                            if qr == pats1 {
                                assert(q =~= seq![q[0]] + qr);
                                assert(pats =~= seq![pats[0]] + pats1);
                            }
                        }
                        assert(has_route(nn, q, h2) <==> has_route(child2, qr, h2)) by {
                            if has_route(nn, q, h2) {
                                let j = choose|j: int|
                                    0 <= j < nn.lits@.len() && (#[trigger] nn.lits@[j]).0@ == t
                                        && has_route(nn.lits@[j].1, qr, h2);
                                assert(j == k);
                            }
                            if has_route(child2, qr, h2) {
                                assert(nn.lits@[k].0@ == t && has_route(nn.lits@[k].1, qr, h2));
                            }
                        }
                        assert(has_route(n0, q, h2) <==> has_route(old_child, qr, h2)) by {
                            if has_route(n0, q, h2) {
                                let j = choose|j: int|
                                    0 <= j < n0.lits@.len() && (#[trigger] n0.lits@[j]).0@ == t
                                        && has_route(n0.lits@[j].1, qr, h2);
                                assert(j == k);
                            }
                            if has_route(old_child, qr, h2) {
                                assert(n0.lits@[k].0@ == t && has_route(n0.lits@[k].1, qr, h2));
                            }
                        }
                    } else {
                        assert(q != pats);
                        assert(has_route(nn, q, h2) <==> has_route(n0, q, h2)) by {
                            if has_route(nn, q, h2) {
                                let j = choose|j: int|
                                    0 <= j < nn.lits@.len() && (#[trigger] nn.lits@[j]).0@ == t
                                        && has_route(nn.lits@[j].1, qr, h2);
                                assert(j != k);
                                assert(n0.lits@[j].0@ == t && has_route(n0.lits@[j].1, qr, h2));
                            }
                            if has_route(n0, q, h2) {
                                let j = choose|j: int|
                                    0 <= j < n0.lits@.len() && (#[trigger] n0.lits@[j]).0@ == t
                                        && has_route(n0.lits@[j].1, qr, h2);
                                assert(j != k);
                                assert(nn.lits@[j].0@ == t && has_route(nn.lits@[j].1, qr, h2));
                            }
                        }
                    }
                },
                SegPat::Cap(_) => {
                    assert(q != pats);
                },
            }
        }
    }
}

/// Adding a fresh literal edge adds exactly the chain's routes under the
/// new label.
proof fn lemma_routes_lit_fresh<H>(
    nn: RouteNode<H>,
    n0: RouteNode<H>,
    chain: RouteNode<H>,
    s: Seq<u8>,
    pats: Seq<SegPat>,
    pats1: Seq<SegPat>,
    h: H,
)
    requires
        wf_node(n0),
        wf_node(chain),
        forall|j: int| 0 <= j < n0.lits@.len() ==> (#[trigger] n0.lits@[j]).0@ != s,
        nn.lits@.len() == n0.lits@.len() + 1,
        forall|j: int| 0 <= j < n0.lits@.len() ==> nn.lits@[j] == n0.lits@[j],
        nn.lits@.last().0@ == s,
        nn.lits@.last().1 == chain,
        nn.cap == n0.cap,
        nn.leaf == n0.leaf,
        pats.len() > 0,
        pats[0] == SegPat::Lit(s),
        pats.drop_first() == pats1,
        forall|q: Seq<SegPat>, h2: H| #[trigger]
            has_route(chain, q, h2) <==> (q == pats1 && h2 == h),
    ensures
        wf_node(nn),
        !insert_dup(n0, pats),
        !insert_conflict(n0, pats),
        forall|q: Seq<SegPat>, h2: H| #[trigger]
            has_route(nn, q, h2) <==> (has_route(n0, q, h2) || (q == pats && h2 == h)),
{
    let kn = n0.lits@.len() as int;
    assert(wf_node(nn)) by {
        assert(forall|j: int| 0 <= j < nn.lits@.len() ==> wf_node((#[trigger] nn.lits@[j]).1));
    }
    assert forall|q: Seq<SegPat>, h2: H| #[trigger]
        has_route(nn, q, h2) <==> (has_route(n0, q, h2) || (q == pats && h2 == h)) by {
        if q.len() == 0 {
            assert(q != pats);
        } else {
            let qr = q.drop_first();
            match q[0] {
                SegPat::Lit(t) => {
                    if t == s {
                        assert(q == pats <==> qr == pats1) by {
                            if qr == pats1 {
                                assert(q =~= seq![q[0]] + qr);
                                assert(pats =~= seq![pats[0]] + pats1);
                            }
                        }
                        assert(!has_route(n0, q, h2));
                        assert(has_route(nn, q, h2) <==> has_route(chain, qr, h2)) by {
                            if has_route(nn, q, h2) {
                                let j = choose|j: int|
                                    0 <= j < nn.lits@.len() && (#[trigger] nn.lits@[j]).0@ == t
                                        && has_route(nn.lits@[j].1, qr, h2);
                                assert(j == kn);
                            }
                            if has_route(chain, qr, h2) {
                                assert(nn.lits@[kn].0@ == t && has_route(nn.lits@[kn].1, qr, h2));
                            }
                        }
                    } else {
                        assert(q != pats);
                        assert(has_route(nn, q, h2) <==> has_route(n0, q, h2)) by {
                            if has_route(nn, q, h2) {
                                let j = choose|j: int|
                                    0 <= j < nn.lits@.len() && (#[trigger] nn.lits@[j]).0@ == t
                                        && has_route(nn.lits@[j].1, qr, h2);
                                assert(j != kn);
                                assert(n0.lits@[j].0@ == t && has_route(n0.lits@[j].1, qr, h2));
                            }
                            if has_route(n0, q, h2) {
                                let j = choose|j: int|
                                    0 <= j < n0.lits@.len() && (#[trigger] n0.lits@[j]).0@ == t
                                        && has_route(n0.lits@[j].1, qr, h2);
                                assert(nn.lits@[j].0@ == t && has_route(nn.lits@[j].1, qr, h2));
                            }
                        }
                    }
                },
                SegPat::Cap(_) => {
                    assert(q != pats);
                },
            }
        }
    }
}

impl<H> RouteNode<H> {
    /// A node with no edges and no handler.
    pub fn empty() -> (r: RouteNode<H>)
        ensures
            wf_node(r),
            forall|q: Seq<SegPat>, h: H| !has_route(r, q, h),
            r.lits@.len() == 0,
            r.cap is None,
            r.leaf is None,
    {
        let r = RouteNode { lits: Vec::new(), cap: None, leaf: None };
        proof {
            assert forall|q: Seq<SegPat>, h: H| !has_route(r, q, h) by {
                if q.len() == 0 {
                } else {
                    match q[0] {
                        SegPat::Lit(_) => {},
                        SegPat::Cap(_) => {},
                    }
                }
            }
        }
        r
    }
}

/// The position of a method's trie in the router's table.
pub open spec fn method_index_spec(m: Method) -> int {
    match m {
        Method::Connect => 0,
        Method::Delete => 1,
        Method::Get => 2,
        Method::Head => 3,
        Method::Options => 4,
        Method::Patch => 5,
        Method::Post => 6,
        Method::Put => 7,
        Method::Trace => 8,
        Method::Copy => 9,
        Method::Lock => 10,
        Method::Mkcol => 11,
        Method::Move => 12,
        Method::Propfind => 13,
        Method::Proppatch => 14,
        Method::Unlock => 15,
        Method::Mkcalendar => 16,
        Method::Report => 17,
        Method::Search => 18,
        Method::Purge => 19,
    }
}

/// How many HTTP methods the router distinguishes.
pub open spec fn method_count() -> int {
    20
}

fn method_index(m: Method) -> (r: usize)
    ensures
        r == method_index_spec(m),
{
    match m {
        Method::Connect => 0,
        Method::Delete => 1,
        Method::Get => 2,
        Method::Head => 3,
        Method::Options => 4,
        Method::Patch => 5,
        Method::Post => 6,
        Method::Put => 7,
        Method::Trace => 8,
        Method::Copy => 9,
        Method::Lock => 10,
        Method::Mkcol => 11,
        Method::Move => 12,
        Method::Propfind => 13,
        Method::Proppatch => 14,
        Method::Unlock => 15,
        Method::Mkcalendar => 16,
        Method::Report => 17,
        Method::Search => 18,
        Method::Purge => 19,
    }
}

/// The application router: one trie per HTTP method, mapping registered
/// route patterns to handlers of one uniform type `H`.
///
/// Routes are registered up front with the method-specific builder calls;
/// after construction the router is read-only and every lookup resolves a
/// concrete path to at most one handler, literal segments taking
/// precedence over captures level by level.
pub struct Router<H> {
    pub tries: Vec<RouteNode<H>>,
}

/// Well-formedness of a router: one well-formed trie per method.
pub open spec fn router_wf<H>(r: Router<H>) -> bool {
    &&& r.tries@.len() == method_count()
    &&& forall|i: int| 0 <= i < r.tries@.len() ==> wf_node(#[trigger] r.tries@[i])
}

/// Whether the router maps `(m, p)` to handler `h`.
pub open spec fn router_has<H>(r: Router<H>, m: Method, p: Seq<SegPat>, h: H) -> bool {
    has_route(r.tries@[method_index_spec(m)], p, h)
}

impl<H> Router<H> {
    /// Creates an empty router: every method's trie is structurally
    /// empty, so any valid pattern can be registered on it.
    pub fn new() -> (r: Router<H>)
        ensures
            router_wf(r),
            forall|m: Method, p: Seq<SegPat>, h: H| !router_has(r, m, p, h),
            forall|i: int|
                0 <= i < r.tries@.len() ==> (#[trigger] r.tries@[i]).lits@.len() == 0
                    && r.tries@[i].cap is None && r.tries@[i].leaf is None,
    {
        let mut tries: Vec<RouteNode<H>> = Vec::new();
        let mut i: usize = 0;
        while i < 20
            invariant
                0 <= i <= 20,
                tries@.len() == i,
                forall|j: int|
                    0 <= j < i ==> wf_node(#[trigger] tries@[j]) && (forall|p: Seq<SegPat>, h: H|
                        !has_route(tries@[j], p, h)),
                forall|j: int|
                    0 <= j < i ==> (#[trigger] tries@[j]).lits@.len() == 0 && tries@[j].cap is None
                        && tries@[j].leaf is None,
            decreases 20 - i,
        {
            tries.push(RouteNode::empty());
            i += 1;
        }
        Router { tries }
    }

    /// Registers a route for `method`, consuming the router and returning
    /// the updated one, or the reason the registration is refused: a
    /// malformed pattern, a duplicate pattern for the same method, or a
    /// capture name clashing with one already registered at its level.
    pub fn try_route(self, method: Method, path: &str, handler: H) -> (r: Result<
        Router<H>,
        RouteError,
    >)
        requires
            router_wf(self),
        ensures
            ({
                let pats = pattern_of(path.spec_bytes());
                let trie = self.tries@[method_index_spec(method)];
                match r {
                    Ok(rr) => {
                        &&& pattern_valid(path.spec_bytes())
                        &&& !insert_dup(trie, pats)
                        &&& !insert_conflict(trie, pats)
                        &&& router_wf(rr)
                        &&& forall|m2: Method, q: Seq<SegPat>, h2: H| #[trigger]
                            router_has(rr, m2, q, h2) <==> (router_has(self, m2, q, h2) || (m2
                                == method && q == pats && h2 == handler))
                    },
                    Err(RouteError::InvalidPattern) => !pattern_valid(path.spec_bytes()),
                    Err(RouteError::DuplicateRoute) => pattern_valid(path.spec_bytes())
                        && insert_dup(trie, pats),
                    Err(RouteError::CaptureConflict) => pattern_valid(path.spec_bytes())
                        && insert_conflict(trie, pats),
                }
            }),
    {
        let bytes = path.as_bytes();
        let segs = split_bytes(bytes);
        // validate every segment before touching the trie
        let nseg = segs.len();
        let mut i: usize = 0;
        while i < nseg
            invariant
                nseg == segs@.len(),
                0 <= i <= nseg,
                segs_view(segs@) == split_segs(bytes@),
                bytes@ == path.spec_bytes(),
                forall|j: int| 0 <= j < i ==> seg_pat_valid(segs_view(segs@)[j]),
            decreases nseg - i,
        {
            if !seg_valid(segs[i].as_slice()) {
                proof {
                    assert(segs_view(segs@).len() == segs@.len());
                    assert(split_segs(bytes@).len() == segs@.len());
                    assert(segs_view(segs@)[i as int] == segs@[i as int]@);
                    assert(split_segs(bytes@)[i as int] == segs_view(segs@)[i as int]);
                    assert(!seg_pat_valid(split_segs(bytes@)[i as int]));
                }
                return Err(RouteError::InvalidPattern);
            }
            i += 1;
        }
        proof {
            assert forall|j: int| 0 <= j < split_segs(bytes@).len() implies seg_pat_valid(
                #[trigger] split_segs(bytes@)[j],
            ) by {
                assert(split_segs(bytes@)[j] == segs_view(segs@)[j]);
            }
        }
        let mut tries = self.tries;
        let k = method_index(method);
        let mut node = RouteNode::empty();
        let mut pair = node;
        tries.set_and_swap(k, &mut pair);
        let trie = pair;
        let ghost trie0 = trie;
        let (trie2, err) = insert_node(trie, &segs, 0, handler);
        match err {
            None => {
                let mut pair2 = trie2;
                tries.set_and_swap(k, &mut pair2);
                let rr = Router { tries };
                proof {
                    assert(segs_view(segs@).skip(0) =~= segs_view(segs@));
                    assert(pats_of(segs_view(segs@)) =~= pattern_of(bytes@));
                    assert(router_wf(rr));
                    assert forall|m2: Method, q: Seq<SegPat>, h2: H| #[trigger]
                        router_has(rr, m2, q, h2) <==> (router_has(self, m2, q, h2) || (m2
                            == method && q == pattern_of(path.spec_bytes()) && h2 == handler)) by {
                        if method_index_spec(m2) == k {
                            assert(m2 == method) by {
                                lemma_method_index_injective(m2, method);
                            }
                        } else {
                            assert(rr.tries@[method_index_spec(m2)]
                                == self.tries@[method_index_spec(m2)]);
                        }
                    }
                }
                Ok(rr)
            },
            Some(e) => {
                proof {
                    assert(segs_view(segs@).skip(0) =~= segs_view(segs@));
                    assert(pats_of(segs_view(segs@)) =~= pattern_of(bytes@));
                }
                Err(e)
            },
        }
    }

    /// Registers a route for an arbitrary HTTP method.
    ///
    /// As in the builder examples, the call consumes and returns the
    /// router. A malformed, duplicate or conflicting pattern is a
    /// programming error discovered at startup and is excluded up front;
    /// called outside that contract this panics.
    pub fn route(self, method: Method, path: &str, handler: H) -> (r: Router<H>)
        requires
            router_wf(self),
            pattern_valid(path.spec_bytes()),
            !insert_dup(self.tries@[method_index_spec(method)], pattern_of(path.spec_bytes())),
            !insert_conflict(
                self.tries@[method_index_spec(method)],
                pattern_of(path.spec_bytes()),
            ),
        ensures
            router_wf(r),
            forall|m2: Method, q: Seq<SegPat>, h2: H| #[trigger]
                router_has(r, m2, q, h2) <==> (router_has(self, m2, q, h2) || (m2 == method && q
                    == pattern_of(path.spec_bytes()) && h2 == handler)),
    {
        match self.try_route(method, path, handler) {
            Ok(rr) => rr,
            Err(_) => vstd::pervasive::unreached(),
        }
    }

    /// Registers a `GET` route.
    pub fn get(self, path: &str, handler: H) -> (r: Router<H>)
        requires
            router_wf(self),
            pattern_valid(path.spec_bytes()),
            !insert_dup(
                self.tries@[method_index_spec(Method::Get)],
                pattern_of(path.spec_bytes()),
            ),
            !insert_conflict(
                self.tries@[method_index_spec(Method::Get)],
                pattern_of(path.spec_bytes()),
            ),
        ensures
            router_wf(r),
            forall|m2: Method, q: Seq<SegPat>, h2: H| #[trigger]
                router_has(r, m2, q, h2) <==> (router_has(self, m2, q, h2) || (m2 == Method::Get
                    && q == pattern_of(path.spec_bytes()) && h2 == handler)),
    {
        self.route(Method::Get, path, handler)
    }

    /// Registers a `POST` route.
    pub fn post(self, path: &str, handler: H) -> (r: Router<H>)
        requires
            router_wf(self),
            pattern_valid(path.spec_bytes()),
            !insert_dup(
                self.tries@[method_index_spec(Method::Post)],
                pattern_of(path.spec_bytes()),
            ),
            !insert_conflict(
                self.tries@[method_index_spec(Method::Post)],
                pattern_of(path.spec_bytes()),
            ),
        ensures
            router_wf(r),
            forall|m2: Method, q: Seq<SegPat>, h2: H| #[trigger]
                router_has(r, m2, q, h2) <==> (router_has(self, m2, q, h2) || (m2 == Method::Post
                    && q == pattern_of(path.spec_bytes()) && h2 == handler)),
    {
        self.route(Method::Post, path, handler)
    }

    /// Registers a `PUT` route.
    pub fn put(self, path: &str, handler: H) -> (r: Router<H>)
        requires
            router_wf(self),
            pattern_valid(path.spec_bytes()),
            !insert_dup(
                self.tries@[method_index_spec(Method::Put)],
                pattern_of(path.spec_bytes()),
            ),
            !insert_conflict(
                self.tries@[method_index_spec(Method::Put)],
                pattern_of(path.spec_bytes()),
            ),
        ensures
            router_wf(r),
            forall|m2: Method, q: Seq<SegPat>, h2: H| #[trigger]
                router_has(r, m2, q, h2) <==> (router_has(self, m2, q, h2) || (m2 == Method::Put
                    && q == pattern_of(path.spec_bytes()) && h2 == handler)),
    {
        self.route(Method::Put, path, handler)
    }

    /// Registers a `DELETE` route.
    pub fn delete(self, path: &str, handler: H) -> (r: Router<H>)
        requires
            router_wf(self),
            pattern_valid(path.spec_bytes()),
            !insert_dup(
                self.tries@[method_index_spec(Method::Delete)],
                pattern_of(path.spec_bytes()),
            ),
            !insert_conflict(
                self.tries@[method_index_spec(Method::Delete)],
                pattern_of(path.spec_bytes()),
            ),
        ensures
            router_wf(r),
            forall|m2: Method, q: Seq<SegPat>, h2: H| #[trigger]
                router_has(r, m2, q, h2) <==> (router_has(self, m2, q, h2) || (m2
                    == Method::Delete && q == pattern_of(path.spec_bytes()) && h2 == handler)),
    {
        self.route(Method::Delete, path, handler)
    }

    /// Registers a `PATCH` route.
    pub fn patch(self, path: &str, handler: H) -> (r: Router<H>)
        requires
            router_wf(self),
            pattern_valid(path.spec_bytes()),
            !insert_dup(
                self.tries@[method_index_spec(Method::Patch)],
                pattern_of(path.spec_bytes()),
            ),
            !insert_conflict(
                self.tries@[method_index_spec(Method::Patch)],
                pattern_of(path.spec_bytes()),
            ),
        ensures
            router_wf(r),
            forall|m2: Method, q: Seq<SegPat>, h2: H| #[trigger]
                router_has(r, m2, q, h2) <==> (router_has(self, m2, q, h2) || (m2 == Method::Patch
                    && q == pattern_of(path.spec_bytes()) && h2 == handler)),
    {
        self.route(Method::Patch, path, handler)
    }

    /// Resolves a method and a concrete path, given as raw bytes, to the
    /// handler of the precedence-maximal matching route and the values
    /// bound to its named captures.
    ///
    /// Lookup is total: for every method and every path — empty, without
    /// a leading slash, arbitrary bytes — it returns `Some` exactly when
    /// a registered route matches, and the absence of a match is
    /// signalled only through the `None` return, never by a failure; the
    /// caller translates `None` into a 404 response.
    pub fn lookup_bytes(&self, method: Method, path: &[u8]) -> (r: Option<
        (&H, Vec<(Vec<u8>, Vec<u8>)>),
    >)
        requires
            router_wf(*self),
        ensures
            r is Some <==> exists|p: Seq<SegPat>, h2: H|
                #[trigger] router_has(*self, method, p, h2) && pat_matches(p, split_segs(path@)),
            ({
                let ts = split_segs(path@);
                match r {
                    Some(hc) => exists|p: Seq<SegPat>|
                        {
                            &&& #[trigger] router_has(*self, method, p, *hc.0)
                            &&& pat_matches(p, ts)
                            &&& pairs_view(hc.1@) == captures_of(p, ts)
                            &&& forall|q: Seq<SegPat>, h2: H|
                                #[trigger] router_has(*self, method, q, h2) && pat_matches(q, ts)
                                    && q != p ==> beats(p, q)
                        },
                    None => forall|q: Seq<SegPat>, h2: H|
                        !(#[trigger] router_has(*self, method, q, h2) && pat_matches(q, ts)),
                }
            }),
    {
        let segs = split_bytes(path);
        let k = method_index(method);
        let (r, gp) = lookup_node(&self.tries[k], &segs, 0);
        proof {
            assert(segs_view(segs@).skip(0) =~= segs_view(segs@));
            match &r {
                Some(hc) => {
                    assert(router_has(*self, method, gp@, *hc.0));
                },
                None => {},
            }
        }
        r
    }

    /// Resolves a method and a concrete path to its handler and extracted
    /// path captures.
    ///
    /// Lookup is total: for every method and every path string it
    /// returns `Some` exactly when a registered route matches, and the
    /// absence of a match is signalled only through the `None` return,
    /// never by a failure.
    pub fn lookup(&self, method: Method, path: &str) -> (r: Option<(&H, Vec<(Vec<u8>, Vec<u8>)>)>)
        requires
            router_wf(*self),
        ensures
            r is Some <==> exists|p: Seq<SegPat>, h2: H|
                #[trigger] router_has(*self, method, p, h2) && pat_matches(
                    p,
                    split_segs(path.spec_bytes()),
                ),
            ({
                let ts = split_segs(path.spec_bytes());
                match r {
                    Some(hc) => exists|p: Seq<SegPat>|
                        {
                            &&& #[trigger] router_has(*self, method, p, *hc.0)
                            &&& pat_matches(p, ts)
                            &&& pairs_view(hc.1@) == captures_of(p, ts)
                            &&& forall|q: Seq<SegPat>, h2: H|
                                #[trigger] router_has(*self, method, q, h2) && pat_matches(q, ts)
                                    && q != p ==> beats(p, q)
                        },
                    None => forall|q: Seq<SegPat>, h2: H|
                        !(#[trigger] router_has(*self, method, q, h2) && pat_matches(q, ts)),
                }
            }),
    {
        self.lookup_bytes(method, path.as_bytes())
    }
}

impl<H> Default for Router<H> {
    /// An empty router, as [`Router::new`] builds it.
    fn default() -> (r: Router<H>)
        ensures
            router_wf(r),
            forall|m: Method, p: Seq<SegPat>, h: H| !router_has(r, m, p, h),
            forall|i: int|
                0 <= i < r.tries@.len() ==> (#[trigger] r.tries@[i]).lits@.len() == 0
                    && r.tries@[i].cap is None && r.tries@[i].leaf is None,
    {
        Router::new()
    }
}

/// A structurally empty trie node refuses no insertion: no pattern is a
/// duplicate there and no capture name can clash. With the matching
/// clause of [`Router::new`], this lets the registration preconditions of
/// [`Router::route`] and the method-specific builders be discharged on a
/// fresh router.
pub proof fn lemma_empty_node_insertable<H>(n: RouteNode<H>, p: Seq<SegPat>)
    requires
        n.lits@.len() == 0,
        n.cap is None,
        n.leaf is None,
    ensures
        !insert_dup(n, p),
        !insert_conflict(n, p),
{
    if p.len() == 0 {
    } else {
        match p[0] {
            SegPat::Lit(_) => {},
            SegPat::Cap(_) => {},
        }
    }
}

/// Precedence decides every tie: in one well-formed trie, of two
/// distinct patterns that both match the same concrete path, one beats
/// the other — so a lookup, which returns the pattern that beats all
/// other matches, yields at most one result, and a literal segment always
/// wins over a capture at the same level.
pub proof fn lemma_match_precedence_total<H>(
    n: RouteNode<H>,
    p: Seq<SegPat>,
    q: Seq<SegPat>,
    h1: H,
    h2: H,
    ts: Seq<Seq<u8>>,
)
    requires
        wf_node(n),
        has_route(n, p, h1),
        has_route(n, q, h2),
        pat_matches(p, ts),
        pat_matches(q, ts),
        p != q,
    ensures
        beats(p, q) || beats(q, p),
    decreases ts.len(),
{
    if ts.len() == 0 {
        assert(p =~= q);
    } else {
        let pr = p.drop_first();
        let qr = q.drop_first();
        assert(p =~= seq![p[0]] + pr);
        assert(q =~= seq![q[0]] + qr);
        assert(seg_matches(p[0], ts[0]));
        assert(seg_matches(q[0], ts[0]));
        lemma_pat_matches_drop(p, ts);
        lemma_pat_matches_drop(q, ts);
        match (p[0], q[0]) {
            (SegPat::Lit(s1), SegPat::Lit(s2)) => {
                assert(s1 == ts[0] && s2 == ts[0]);
                let j1 = choose|j: int|
                    0 <= j < n.lits@.len() && (#[trigger] n.lits@[j]).0@ == s1 && has_route(
                        n.lits@[j].1,
                        pr,
                        h1,
                    );
                let j2 = choose|j: int|
                    0 <= j < n.lits@.len() && (#[trigger] n.lits@[j]).0@ == s2 && has_route(
                        n.lits@[j].1,
                        qr,
                        h2,
                    );
                assert(j1 == j2);
                assert(pr != qr) by {
                    if pr == qr {
                        assert(p =~= q);
                    }
                }
                lemma_match_precedence_total(
                    n.lits@[j1].1,
                    pr,
                    qr,
                    h1,
                    h2,
                    ts.drop_first(),
                );
                if beats(pr, qr) {
                    lemma_beats_cons(p[0], q[0], pr, qr);
                } else {
                    lemma_beats_cons(q[0], p[0], qr, pr);
                }
            },
            (SegPat::Lit(_), SegPat::Cap(_)) => {
                assert(beats(p, q));
            },
            (SegPat::Cap(_), SegPat::Lit(_)) => {
                assert(beats(q, p));
            },
            (SegPat::Cap(n1), SegPat::Cap(n2)) => {
                let c = n.cap->Some_0;
                assert(n1 == c.0@ && n2 == c.0@);
                assert(pr != qr) by {
                    if pr == qr {
                        assert(p =~= q);
                    }
                }
                lemma_match_precedence_total(*c.1, pr, qr, h1, h2, ts.drop_first());
                if beats(pr, qr) {
                    lemma_beats_cons(p[0], q[0], pr, qr);
                } else {
                    lemma_beats_cons(q[0], p[0], qr, pr);
                }
            },
        }
    }
}

/// Two methods with the same trie position are the same method.
proof fn lemma_method_index_injective(a: Method, b: Method)
    requires
        method_index_spec(a) == method_index_spec(b),
    ensures
        a == b,
{
}

} // verus!
