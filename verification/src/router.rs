//! The route table and the matching half of the dispatcher.
//!
//! A route binds a method and a path pattern — a sequence of literal and
//! named-capture segments — to a handler. The table is built once at
//! startup; registering a second route with the same method and the same
//! pattern shape is a startup conflict, never a silent shadow. Matching
//! tries routes in registration order and the first full match wins, so
//! registration order is the documented tie-break when a literal and a
//! capture pattern could both match a path.

use vstd::prelude::*;
use crate::bytes::{bytes_eq, find_byte, head_to, split, spec_find, spec_split, tail_from, views_of};

verus! {

/// An HTTP method this core routes on.
#[derive(Clone, Copy, PartialEq, Eq, Structural, Debug)]
pub enum Method {
    Get,
    Post,
}

/// One segment of a path pattern: a literal that must match exactly
/// (case-sensitive), or a named capture that matches any single
/// non-empty segment and binds its value.
pub enum Segment {
    Literal(Vec<u8>),
    Capture(Vec<u8>),
}

/// Raised when a route is registered twice with the same method and an
/// identical pattern shape; fatal at startup, never a per-request error.
#[derive(Clone, Copy, PartialEq, Eq, Structural, Debug)]
pub struct StartupConflict;

/// A registered binding from method and pattern to a handler value.
pub struct Route<H> {
    pub method: Method,
    pub pattern: Vec<Segment>,
    pub handler: H,
}

/// The ordered route table, immutable after startup.
pub struct RouteTable<H> {
    routes: Vec<Route<H>>,
}

/// A key-to-value mapping of plain byte strings, used both for the path
/// captures of a matched route and for parsed query or body pairs.
/// Lookup exposes the first occurrence of a key.
pub struct ParamMap {
    pairs: Vec<(Vec<u8>, Vec<u8>)>,
}

/// The views of a sequence of byte-vector pairs.
pub open spec fn pairs_view(v: Seq<(Vec<u8>, Vec<u8>)>) -> Seq<(Seq<u8>, Seq<u8>)> {
    Seq::new(v.len(), |i: int| (v[i].0@, v[i].1@))
}

impl View for ParamMap {
    type V = Seq<(Seq<u8>, Seq<u8>)>;

    closed spec fn view(&self) -> Seq<(Seq<u8>, Seq<u8>)> {
        pairs_view(self.pairs@)
    }
}

/// The value bound to the first pair carrying `key`, if any.
pub open spec fn spec_lookup(pairs: Seq<(Seq<u8>, Seq<u8>)>, key: Seq<u8>) -> Option<Seq<u8>>
    decreases pairs.len(),
{
    if pairs.len() == 0 {
        None
    } else if pairs[0].0 == key {
        Some(pairs[0].1)
    } else {
        spec_lookup(pairs.skip(1), key)
    }
}

/// A scan that has ruled the key out of a prefix can go on from there:
/// the first occurrence over the whole sequence is the first occurrence
/// past that prefix.
proof fn lemma_lookup_past_prefix(pairs: Seq<(Seq<u8>, Seq<u8>)>, key: Seq<u8>, i: int)
    requires
        0 <= i <= pairs.len(),
        forall|j: int| 0 <= j < i ==> (#[trigger] pairs[j]).0 != key,
    ensures
        spec_lookup(pairs, key) == spec_lookup(pairs.skip(i), key),
    decreases i,
{
    if i > 0 {
        assert(pairs[0].0 != key);
        assert forall|j: int| 0 <= j < i - 1 implies (#[trigger] pairs.skip(1)[j]).0 != key by {
            assert(pairs.skip(1)[j] == pairs[j + 1]);
        }
        lemma_lookup_past_prefix(pairs.skip(1), key, i - 1);
        assert(pairs.skip(1).skip(i - 1) =~= pairs.skip(i));
    } else {
        assert(pairs.skip(0) =~= pairs);
    }
}

impl ParamMap {
    /// An empty mapping.
    pub fn new() -> (m: ParamMap)
        ensures
            m@ =~= Seq::<(Seq<u8>, Seq<u8>)>::empty(),
    {
        ParamMap { pairs: Vec::new() }
    }

    /// Appends a pair; lookups still expose the first occurrence of a key.
    pub fn push(&mut self, key: Vec<u8>, value: Vec<u8>)
        ensures
            final(self)@ =~= old(self)@.push((key@, value@)),
    {
        self.pairs.push((key, value));
    }

    /// The value of the first pair carrying `key`, if any.
    pub fn get(&self, key: &Vec<u8>) -> (r: Option<&Vec<u8>>)
        ensures
            match r {
                Some(v) => spec_lookup(self@, key@) == Some(v@),
                None => spec_lookup(self@, key@) is None,
            },
    {
        let mut i: usize = 0;
        while i < self.pairs.len()
            invariant
                i <= self.pairs.len(),
                forall|j: int| 0 <= j < i ==> (#[trigger] self@[j]).0 != key@,
            decreases self.pairs.len() - i,
        {
            if bytes_eq(&self.pairs[i].0, key) {
                proof {
                    lemma_lookup_past_prefix(self@, key@, i as int);
                }
                return Some(&self.pairs[i].1);
            }
            i = i + 1;
        }
        proof {
            lemma_lookup_past_prefix(self@, key@, self@.len() as int);
        }
        None
    }
}

/// True when `seg` matches one path segment: a literal matches exactly
/// its own bytes, a capture matches any non-empty segment.
pub open spec fn seg_matches(seg: Segment, part: Seq<u8>) -> bool {
    match seg {
        Segment::Literal(l) => l@ == part,
        Segment::Capture(_) => part.len() > 0,
    }
}

/// True when the pattern matches the whole split path, segment by segment.
#[verifier::opaque]
pub open spec fn pattern_matches(pat: Seq<Segment>, parts: Seq<Seq<u8>>) -> bool {
    pat.len() == parts.len() && (forall|i: int|
        0 <= i < pat.len() ==> seg_matches(#[trigger] pat[i], parts[i]))
}

/// The capture bindings a match produces, in pattern order.
pub open spec fn captures(pat: Seq<Segment>, parts: Seq<Seq<u8>>) -> Seq<(Seq<u8>, Seq<u8>)>
    decreases pat.len(),
{
    if pat.len() == 0 {
        Seq::empty()
    } else {
        let head = captures(pat.drop_last(), parts.drop_last());
        match pat.last() {
            Segment::Capture(name) => head.push((name@, parts.last())),
            Segment::Literal(_) => head,
        }
    }
}

/// A pattern can only match a path that splits into as many segments as
/// it has itself.
pub proof fn lemma_pattern_matches_len(pat: Seq<Segment>, parts: Seq<Seq<u8>>)
    requires
        pattern_matches(pat, parts),
    ensures
        pat.len() == parts.len(),
{
    reveal(pattern_matches);
}

/// Two pattern shapes are identical when literals carry the same bytes
/// and captures stand in the same places. A capture matches any
/// non-empty segment whatever its name, so the name plays no part in
/// what a pattern can match, nor in what counts as a duplicate.
pub open spec fn seg_shape_eq(a: Segment, b: Segment) -> bool {
    match (a, b) {
        (Segment::Literal(x), Segment::Literal(y)) => x@ == y@,
        (Segment::Capture(_), Segment::Capture(_)) => true,
        _ => false,
    }
}

/// Identical pattern shapes, segment by segment.
pub open spec fn pattern_eq(p: Seq<Segment>, q: Seq<Segment>) -> bool {
    p.len() == q.len() && (forall|i: int|
        0 <= i < p.len() ==> seg_shape_eq(#[trigger] p[i], q[i]))
}

/// True when some registered route already carries this method and an
/// identical pattern shape.
pub open spec fn has_conflict<H>(routes: Seq<Route<H>>, m: Method, p: Seq<Segment>) -> bool {
    exists|i: int|
        0 <= i < routes.len() && (#[trigger] routes[i]).method == m && pattern_eq(
            routes[i].pattern@,
            p,
        )
}

/// Index of the first route matching the method and the split path,
/// or `-1` when none does.
pub open spec fn first_match<H>(routes: Seq<Route<H>>, m: Method, parts: Seq<Seq<u8>>) -> int
    decreases routes.len(),
{
    if routes.len() == 0 {
        -1
    } else if routes[0].method == m && pattern_matches(routes[0].pattern@, parts) {
        0
    } else {
        let r = first_match(routes.skip(1), m, parts);
        if r < 0 {
            -1
        } else {
            r + 1
        }
    }
}

/// What the first-match index means: when it is negative no route at all
/// matches, and when it is an index, that route matches and no route
/// registered earlier does — registration order is the tie-break.
pub proof fn lemma_first_match<H>(routes: Seq<Route<H>>, m: Method, parts: Seq<Seq<u8>>)
    ensures
        first_match(routes, m, parts) < 0 ==> forall|i: int|
            0 <= i < routes.len() ==> !((#[trigger] routes[i]).method == m && pattern_matches(
                routes[i].pattern@,
                parts,
            )),
        first_match(routes, m, parts) >= 0 ==> {
            let idx = first_match(routes, m, parts);
            &&& idx < routes.len()
            &&& routes[idx].method == m
            &&& pattern_matches(routes[idx].pattern@, parts)
            &&& forall|j: int|
                0 <= j < idx ==> !((#[trigger] routes[j]).method == m && pattern_matches(
                    routes[j].pattern@,
                    parts,
                ))
        },
    decreases routes.len(),
{
    if routes.len() > 0 {
        if !(routes[0].method == m && pattern_matches(routes[0].pattern@, parts)) {
            lemma_first_match(routes.skip(1), m, parts);
            let r = first_match(routes.skip(1), m, parts);
            if r < 0 {
                assert forall|i: int|
                    0 <= i < routes.len() implies !((#[trigger] routes[i]).method == m
                    && pattern_matches(routes[i].pattern@, parts)) by {
                    if i > 0 {
                        assert(routes.skip(1)[i - 1] == routes[i]);
                    }
                }
            } else {
                assert(routes.skip(1)[r] == routes[r + 1]);
                assert forall|j: int|
                    0 <= j < r + 1 implies !((#[trigger] routes[j]).method == m
                    && pattern_matches(routes[j].pattern@, parts)) by {
                    if j > 0 {
                        assert(routes.skip(1)[j - 1] == routes[j]);
                    }
                }
            }
        }
    }
}

/// True when `seg` matches the given path segment.
fn seg_matches_exec(seg: &Segment, part: &Vec<u8>) -> (r: bool)
    ensures
        r == seg_matches(*seg, part@),
{
    match seg {
        Segment::Literal(l) => bytes_eq(l, part),
        Segment::Capture(_) => part.len() > 0,
    }
}

/// True when the pattern matches the whole split path.
#[verifier::loop_isolation(false)]
fn pattern_matches_exec(pat: &Vec<Segment>, parts: &Vec<Vec<u8>>) -> (r: bool)
    ensures
        r == pattern_matches(pat@, views_of(parts@)),
{
    reveal(pattern_matches);
    if pat.len() != parts.len() {
        return false;
    }
    let mut i: usize = 0;
    while i < pat.len()
        invariant
            i <= pat.len() == parts.len(),
            forall|j: int| 0 <= j < i ==> seg_matches(#[trigger] pat@[j], views_of(parts@)[j]),
        decreases pat.len() - i,
    {
        if !seg_matches_exec(&pat[i], &parts[i]) {
            return false;
        }
        i = i + 1;
    }
    true
}

/// True when the two patterns have identical shape.
fn pattern_eq_exec(p: &Vec<Segment>, q: &Vec<Segment>) -> (r: bool)
    ensures
        r == pattern_eq(p@, q@),
{
    if p.len() != q.len() {
        return false;
    }
    let mut i: usize = 0;
    while i < p.len()
        invariant
            i <= p.len() == q.len(),
            forall|j: int| 0 <= j < i ==> seg_shape_eq(#[trigger] p@[j], q@[j]),
        decreases p.len() - i,
    {
        let same = match (&p[i], &q[i]) {
            (Segment::Literal(x), Segment::Literal(y)) => bytes_eq(x, y),
            (Segment::Capture(_), Segment::Capture(_)) => true,
            _ => false,
        };
        if !same {
            return false;
        }
        i = i + 1;
    }
    true
}

/// The capture bindings of a matched pattern, in pattern order.
fn captures_exec(pat: &Vec<Segment>, parts: &Vec<Vec<u8>>) -> (r: ParamMap)
    requires
        pat@.len() == parts@.len(),
    ensures
        r@ == captures(pat@, views_of(parts@)),
{
    let mut r = ParamMap::new();
    let mut i: usize = 0;
    while i < pat.len()
        invariant
            i <= pat.len() == parts.len(),
            r@ =~= captures(pat@.take(i as int), views_of(parts@).take(i as int)),
        decreases pat.len() - i,
    {
        let ghost before = r@;
        match &pat[i] {
            Segment::Capture(name) => {
                let n = name.clone();
                let v = parts[i].clone();
                r.push(n, v);
            },
            Segment::Literal(_) => {},
        }
        proof {
            let p1 = pat@.take(i as int + 1);
            let q1 = views_of(parts@).take(i as int + 1);
            assert(p1.drop_last() =~= pat@.take(i as int));
            assert(q1.drop_last() =~= views_of(parts@).take(i as int));
            assert(p1.last() == pat@[i as int]);
            assert(q1.last() == views_of(parts@)[i as int]);
            assert(r@ =~= captures(p1, q1));
        }
        i = i + 1;
    }
    proof {
        assert(pat@.take(pat@.len() as int) =~= pat@);
        assert(views_of(parts@).take(pat@.len() as int) =~= views_of(parts@));
    }
    r
}

impl<H: Copy> RouteTable<H> {
    /// The registered routes, in registration order.
    pub closed spec fn routes(&self) -> Seq<Route<H>> {
        self.routes@
    }

    /// An empty table.
    pub fn new() -> (t: RouteTable<H>)
        ensures
            t.routes() =~= Seq::<Route<H>>::empty(),
    {
        RouteTable { routes: Vec::new() }
    }

    /// Adds a route, or reports a startup conflict if one with the same
    /// method and an identical pattern shape is already registered —
    /// exactly then, so a conflict can never slip through.
    pub fn register(&mut self, method: Method, pattern: Vec<Segment>, handler: H) -> (r: Result<
        (),
        StartupConflict,
    >)
        ensures
            r is Ok <==> !has_conflict(old(self).routes(), method, pattern@),
            r is Ok ==> final(self).routes() =~= old(self).routes().push(
                (Route { method, pattern, handler }),
            ),
            r is Err ==> final(self).routes() == old(self).routes(),
    {
        let mut i: usize = 0;
        while i < self.routes.len()
            invariant
                i <= self.routes.len(),
                forall|j: int|
                    0 <= j < i ==> !((#[trigger] self.routes@[j]).method == method && pattern_eq(
                        self.routes@[j].pattern@,
                        pattern@,
                    )),
            decreases self.routes.len() - i,
        {
            if self.routes[i].method == method && pattern_eq_exec(&self.routes[i].pattern, &pattern) {
                return Err(StartupConflict);
            }
            i = i + 1;
        }
        self.routes.push(Route { method, pattern, handler });
        Ok(())
    }

    /// The handler and capture bindings of the first route matching the
    /// method and the split path, in registration order; `None` exactly
    /// when no route matches, and then no handler is chosen at all.
    #[verifier::loop_isolation(false)]
    pub fn find(&self, method: Method, parts: &Vec<Vec<u8>>) -> (r: Option<(H, ParamMap)>)
        ensures
            ({
                let idx = first_match(self.routes(), method, views_of(parts@));
                match r {
                    Some(hp) => idx >= 0 && idx < self.routes().len() && hp.0
                        == self.routes()[idx].handler && hp.1@ == captures(
                        self.routes()[idx].pattern@,
                        views_of(parts@),
                    ),
                    None => idx < 0,
                }
            }),
    {
        let ghost vparts = views_of(parts@);
        let mut i: usize = 0;
        while i < self.routes.len()
            invariant
                i <= self.routes.len(),
                forall|j: int|
                    0 <= j < i ==> !((#[trigger] self.routes@[j]).method == method
                        && pattern_matches(self.routes@[j].pattern@, views_of(parts@))),
            decreases self.routes.len() - i,
        {
            let route = &self.routes[i];
            if route.method == method && pattern_matches_exec(&route.pattern, parts) {
                proof {
                    lemma_pattern_matches_len(route.pattern@, views_of(parts@));
                }
                let params = captures_exec(&route.pattern, parts);
                proof {
                    assert(*route == self.routes@[i as int]);
                    assert(self.routes() == self.routes@);
                    assert(self.routes()[i as int].pattern@ == route.pattern@);
                    assert(pattern_matches(self.routes()[i as int].pattern@, vparts));
                    lemma_first_match_past_prefix(self.routes(), method, vparts, i as int);
                }
                return Some((self.routes[i].handler, params));
            }
            i = i + 1;
        }
        proof {
            lemma_first_match(self.routes(), method, vparts);
            if first_match(self.routes(), method, vparts) >= 0 {
                let idx = first_match(self.routes(), method, vparts);
                assert(!(self.routes()[idx].method == method && pattern_matches(
                    self.routes()[idx].pattern@,
                    vparts,
                )));
            }
        }
        None
    }
}

/// A scan that has ruled out every route before `i` finds the first
/// match at `i` as soon as route `i` matches.
proof fn lemma_first_match_past_prefix<H>(
    routes: Seq<Route<H>>,
    m: Method,
    parts: Seq<Seq<u8>>,
    i: int,
)
    requires
        0 <= i < routes.len(),
        forall|j: int|
            0 <= j < i ==> !((#[trigger] routes[j]).method == m && pattern_matches(
                routes[j].pattern@,
                parts,
            )),
        routes[i].method == m && pattern_matches(routes[i].pattern@, parts),
    ensures
        first_match(routes, m, parts) == i,
    decreases i,
{
    if i > 0 {
        assert forall|j: int|
            0 <= j < i - 1 implies !((#[trigger] routes.skip(1)[j]).method == m && pattern_matches(
            routes.skip(1)[j].pattern@,
            parts,
        )) by {
            assert(routes.skip(1)[j] == routes[j + 1]);
        }
        assert(routes.skip(1)[i - 1] == routes[i]);
        lemma_first_match_past_prefix(routes.skip(1), m, parts, i - 1);
    }
}

/// The wire pairs of a query string or form body: pieces cut at `&`,
/// each split at its first `=`; a piece without `=` is a bare key with
/// an empty value.
pub open spec fn spec_pair_of(p: Seq<u8>) -> (Seq<u8>, Seq<u8>) {
    let f = spec_find(p, 61);  // b'='
    if f >= 0 {
        (p.take(f), p.skip(f + 1))
    } else {
        (p, Seq::empty())
    }
}

/// All wire pairs of `s`, in wire order, duplicates kept; lookups on the
/// resulting map expose only the first occurrence of a key.
pub open spec fn spec_pairs(s: Seq<u8>) -> Seq<(Seq<u8>, Seq<u8>)> {
    let pieces = spec_split(s, 38);  // b'&'
    Seq::new(pieces.len(), |i: int| spec_pair_of(pieces[i]))
}

/// Parses a query string or form body into its wire pairs.
pub fn parse_pairs(s: &Vec<u8>) -> (r: ParamMap)
    ensures
        r@ == spec_pairs(s@),
{
    let pieces = split(s, 38);
    let mut r = ParamMap::new();
    let mut i: usize = 0;
    while i < pieces.len()
        invariant
            i <= pieces.len(),
            views_of(pieces@) == spec_split(s@, 38),
            r@ =~= spec_pairs(s@).take(i as int),
        decreases pieces.len() - i,
    {
        let piece = &pieces[i];
        match find_byte(piece, 61) {
            Some(f) => {
                proof {
                    crate::bytes::lemma_find_range(piece@, 61);
                }
                let k = head_to(piece, f);
                let v = tail_from(piece, f + 1);
                r.push(k, v);
            },
            None => {
                let k = piece.clone();
                r.push(k, Vec::new());
            },
        }
        proof {
            assert(views_of(pieces@)[i as int] == piece@);
            assert(spec_pairs(s@)[i as int] == spec_pair_of(piece@));
            assert(r@ =~= spec_pairs(s@).take(i as int + 1));
        }
        i = i + 1;
    }
    proof {
        assert(spec_pairs(s@).take(spec_pairs(s@).len() as int) =~= spec_pairs(s@));
    }
    r
}

/// The segments of a request path: the byte after the leading slash to
/// the end, cut at every further slash; the root path has no segments.
pub open spec fn path_parts(p: Seq<u8>) -> Seq<Seq<u8>> {
    if p.len() <= 1 {
        Seq::empty()
    } else {
        spec_split(p.skip(1), 47)  // b'/'
    }
}

/// Splits a request path into its segments.
pub fn path_to_parts(path: &Vec<u8>) -> (r: Vec<Vec<u8>>)
    requires
        path@.len() >= 1,
        path@[0] == 47,
    ensures
        views_of(r@) == path_parts(path@),
{
    if path.len() == 1 {
        let r: Vec<Vec<u8>> = Vec::new();
        proof {
            assert(views_of(r@) =~= path_parts(path@));
        }
        r
    } else {
        let rest = tail_from(path, 1);
        split(&rest, 47)
    }
}

} // verus!
