//! Keypath resolution: from dotted field paths to the byte spans of their
//! terminal values.
//!
//! A keypath is resolved by descending one segment at a time. A bare
//! segment first checks header names (case-insensitively); a dotted path
//! descends into the body object field by field, matching key text exactly.
//! An unmatched segment at any depth contributes nothing — that is expected
//! for optional fields and never an error. Allowlist and denylist are
//! resolved independently, never as complements of one another, and the
//! result is one canonical range set, so permuting the lists cannot change
//! the outcome.

use vstd::prelude::*;
use crate::span::{Span, RangeSet, span_in, span_points, points, merge_spans, lemma_points_push};
use crate::http::{Document, DocModel, DocKind, HeaderNode, headers_ok, lemma_request_ok, lemma_response_ok};
use crate::json::{JsonNode, JsonKind, nodes_ok};

verus! {

/// ASCII lower-casing, for case-insensitive header-name matching.
pub open spec fn lower(b: u8) -> u8 {
    if 65 <= b <= 90 {
        (b + 32) as u8
    } else {
        b
    }
}

/// Case-insensitive byte-string equality.
pub open spec fn bytes_ieq(a: Seq<u8>, b: Seq<u8>) -> bool {
    a.len() == b.len() && forall|k: int| 0 <= k < a.len() ==> lower(#[trigger] a[k]) == lower(b[k])
}

/// The bytes of the buffer at a span.
pub open spec fn span_bytes(buf: Seq<u8>, sp: Span) -> Seq<u8> {
    buf.subrange(sp.start as int, sp.end as int)
}

/// Index of the first header at or after `k` whose name matches `name`
/// case-insensitively.
pub open spec fn find_header(hs: Seq<HeaderNode>, buf: Seq<u8>, name: Seq<u8>, k: int) -> Option<
    int,
>
    decreases hs.len() - k,
{
    if !(0 <= k < hs.len()) {
        None
    } else if bytes_ieq(span_bytes(buf, hs[k].name_span), name) {
        Some(k)
    } else {
        find_header(hs, buf, name, k + 1)
    }
}

/// Index of the first direct member of the object node of depth `pd`
/// whose subtree starts just before `j`, with key text exactly `seg`.
/// The scan stops where the subtree ends (the next node at depth `pd` or
/// shallower).
pub open spec fn find_member(ns: Seq<JsonNode>, buf: Seq<u8>, j: int, pd: usize, seg: Seq<u8>) -> Option<
    int,
>
    decreases ns.len() - j,
{
    if !(0 <= j < ns.len()) {
        None
    } else if ns[j].depth <= pd {
        None
    } else if ns[j].depth == pd + 1 && (ns[j].key_span matches Some(ks) && span_bytes(buf, ks)
        == seg) {
        Some(j)
    } else {
        find_member(ns, buf, j + 1, pd, seg)
    }
}

/// The byte range a matched value contributes: for a string, the text
/// between the quotes; for everything else, the whole token.
pub open spec fn node_value_span(n: JsonNode) -> Span {
    if n.kind is Text {
        Span { start: (n.span.start + 1) as usize, end: (n.span.end - 1) as usize }
    } else {
        n.span
    }
}

/// Descend from the value node at `cur` through the remaining segments
/// `kp[si..]`; the span of the terminal value if every segment matches.
pub open spec fn descend(ns: Seq<JsonNode>, buf: Seq<u8>, cur: int, kp: Seq<Seq<u8>>, si: int) -> Option<
    Span,
>
    decreases kp.len() - si,
{
    if !(0 <= cur < ns.len()) {
        None
    } else if si >= kp.len() {
        Some(node_value_span(ns[cur]))
    } else if !(ns[cur].kind is Object) {
        None
    } else {
        match find_member(ns, buf, cur + 1, ns[cur].depth, kp[si]) {
            None => None,
            Some(j) => descend(ns, buf, j, kp, si + 1),
        }
    }
}

/// Resolve one keypath against a document: a bare segment first checks
/// header names, then falls through to a top-level body field; a dotted
/// path descends into the body only.
pub open spec fn resolve_kp(d: DocModel, buf: Seq<u8>, kp: Seq<Seq<u8>>) -> Option<Span> {
    if kp.len() == 0 {
        None
    } else {
        let hdr = if kp.len() == 1 {
            find_header(d.headers, buf, kp[0], 0)
        } else {
            None
        };
        match hdr {
            Some(h) => Some(d.headers[h].value_span),
            None => if d.body.len() > 0 {
                descend(d.body, buf, 0, kp, 0)
            } else {
                None
            },
        }
    }
}

/// The byte offsets selected by a list of keypaths: the union of the spans
/// of every keypath that resolves. Membership depends only on which
/// keypaths occur in the list, not on their order or multiplicity.
pub open spec fn kp_points(d: DocModel, buf: Seq<u8>, kps: Seq<Seq<Seq<u8>>>) -> Set<int> {
    Set::new(
        |p: int|
            exists|k: int|
                {
                    &&& 0 <= k < kps.len()
                    &&& (#[trigger] resolve_kp(d, buf, kps[k])) matches Some(sp)
                    &&& span_in(sp, p)
                },
    )
}

/// An ordered sequence of path segments. A single segment may match a
/// header name; multiple segments descend into the body.
pub struct Keypath {
    pub segments: Vec<Vec<u8>>,
}

impl View for Keypath {
    type V = Seq<Seq<u8>>;

    open spec fn view(&self) -> Seq<Seq<u8>> {
        Seq::new(self.segments@.len(), |i: int| self.segments@[i]@)
    }
}

pub open spec fn kps_view(v: Seq<Keypath>) -> Seq<Seq<Seq<u8>>> {
    Seq::new(v.len(), |i: int| v[i]@)
}

/// Index of the first `.` at or after `k`, or the end of the path.
pub open spec fn find_dot(p: Seq<u8>, k: int) -> int
    decreases p.len() - k,
{
    if !(0 <= k < p.len()) {
        k
    } else if p[k] == '.' as u8 {
        k
    } else {
        find_dot(p, k + 1)
    }
}

/// The segments of the dotted path text from position `k` on.
pub open spec fn sp_split_from(p: Seq<u8>, k: int) -> Seq<Seq<u8>>
    decreases p.len() - k,
{
    let d = find_dot(p, k);
    if 0 <= k <= d && d < p.len() {
        seq![p.subrange(k, d)] + sp_split_from(p, d + 1)
    } else {
        seq![p.subrange(k, p.len() as int)]
    }
}

/// The segments of a dotted path: split on every `.`.
pub open spec fn sp_split(p: Seq<u8>) -> Seq<Seq<u8>> {
    sp_split_from(p, 0)
}

fn dot_end(p: &Vec<u8>, k: usize) -> (r: usize)
    requires
        k <= p.len(),
    ensures
        r as int == find_dot(p@, k as int),
        k <= r <= p.len(),
    decreases p.len() - k,
{
    if k < p.len() {
        if p[k] == '.' as u8 {
            k
        } else {
            dot_end(p, k + 1)
        }
    } else {
        k
    }
}

/// Split a dotted path into its keypath segments.
#[verifier::loop_isolation(false)]
pub fn keypath_from_bytes(p: &Vec<u8>) -> (r: Keypath)
    ensures
        r@ == sp_split(p@),
{
    let mut segs: Vec<Vec<u8>> = Vec::new();
    let mut k: usize = 0;
    loop
        invariant
            k <= p.len(),
            kp_segments_view(segs@) + sp_split_from(p@, k as int) =~= sp_split_from(p@, 0),
        decreases p.len() - k,
    {
        let d = dot_end(p, k);
        let mut seg: Vec<u8> = Vec::new();
        let mut t = k;
        while t < d
            invariant
                k <= t <= d,
                seg@ == p@.subrange(k as int, t as int),
            decreases d - t,
        {
            seg.push(p[t]);
            proof {
                assert(seg@ =~= p@.subrange(k as int, t + 1));
            }
            t = t + 1;
        }
        let ghost segs0 = segs@;
        segs.push(seg);
        proof {
            assert(kp_segments_view(segs@) =~= kp_segments_view(segs0).push(seg@));
        }
        if d < p.len() {
            proof {
                assert(sp_split_from(p@, k as int) =~= seq![p@.subrange(k as int, d as int)]
                    + sp_split_from(p@, d + 1));
                assert(kp_segments_view(segs@) + sp_split_from(p@, d + 1) =~= kp_segments_view(
                    segs0,
                ) + sp_split_from(p@, k as int));
            }
            k = d + 1;
        } else {
            let r = Keypath { segments: segs };
            proof {
                assert(sp_split_from(p@, k as int) =~= seq![p@.subrange(k as int, p@.len() as int)]);
                assert(r@ =~= kp_segments_view(segs@));
                assert(r@ =~= sp_split_from(p@, 0));
            }
            return r;
        }
    }
}

pub open spec fn kp_segments_view(v: Seq<Vec<u8>>) -> Seq<Seq<u8>> {
    Seq::new(v.len(), |i: int| v[i]@)
}

proof fn lemma_find_header_range(hs: Seq<HeaderNode>, buf: Seq<u8>, name: Seq<u8>, k: int)
    requires
        0 <= k,
    ensures
        find_header(hs, buf, name, k) matches Some(h) ==> k <= h < hs.len(),
    decreases hs.len() - k,
{
    if 0 <= k < hs.len() && !bytes_ieq(span_bytes(buf, hs[k].name_span), name) {
        lemma_find_header_range(hs, buf, name, k + 1);
    }
}

proof fn lemma_find_member_range(ns: Seq<JsonNode>, buf: Seq<u8>, j: int, pd: usize, seg: Seq<u8>)
    requires
        0 <= j,
    ensures
        find_member(ns, buf, j, pd, seg) matches Some(x) ==> j <= x < ns.len(),
    decreases ns.len() - j,
{
    if 0 <= j < ns.len() && ns[j].depth > pd && !(ns[j].depth == pd + 1 && (
    ns[j].key_span matches Some(ks) && span_bytes(buf, ks) == seg)) {
        lemma_find_member_range(ns, buf, j + 1, pd, seg);
    }
}

/// Every span the descent can return is a well-formed interval of the
/// buffer.
proof fn lemma_descend_valid(ns: Seq<JsonNode>, buf: Seq<u8>, cur: int, kp: Seq<Seq<u8>>, si: int)
    requires
        nodes_ok(ns, buf.len() as int),
    ensures
        descend(ns, buf, cur, kp, si) matches Some(sp) ==> sp.start <= sp.end <= buf.len(),
    decreases kp.len() - si,
{
    if 0 <= cur < ns.len() && si < kp.len() && ns[cur].kind is Object {
        lemma_find_member_range(ns, buf, cur + 1, ns[cur].depth, kp[si]);
        match find_member(ns, buf, cur + 1, ns[cur].depth, kp[si]) {
            None => {},
            Some(j) => {
                lemma_descend_valid(ns, buf, j, kp, si + 1);
            },
        }
    }
}

/// Every span a keypath can resolve to is a well-formed interval of the
/// buffer.
pub proof fn lemma_resolve_kp_valid(d: DocModel, buf: Seq<u8>, kp: Seq<Seq<u8>>)
    requires
        headers_ok(d.headers, buf.len() as int),
        nodes_ok(d.body, buf.len() as int),
    ensures
        resolve_kp(d, buf, kp) matches Some(sp) ==> sp.start <= sp.end <= buf.len(),
{
    if kp.len() == 1 {
        lemma_find_header_range(d.headers, buf, kp[0], 0);
    }
    lemma_descend_valid(d.body, buf, 0, kp, 0);
}

fn lower_ex(b: u8) -> (r: u8)
    ensures
        r == lower(b),
{
    if 65 <= b && b <= 90 {
        b + 32
    } else {
        b
    }
}

/// Exact comparison of the buffer bytes at `sp` with `seg`.
#[verifier::loop_isolation(false)]
fn eq_span_bytes(buf: &Vec<u8>, sp: Span, seg: &Vec<u8>) -> (r: bool)
    requires
        sp.start <= sp.end <= buf.len(),
    ensures
        r == (span_bytes(buf@, sp) == seg@),
{
    let n = sp.end - sp.start;
    if seg.len() != n {
        proof {
            assert(span_bytes(buf@, sp).len() == n);
        }
        return false;
    }
    let mut t: usize = 0;
    while t < n
        invariant
            0 <= t <= n,
            forall|q: int| 0 <= q < t ==> buf@[sp.start + q] == seg@[q],
        decreases n - t,
    {
        if buf[sp.start + t] != seg[t] {
            proof {
                assert(span_bytes(buf@, sp)[t as int] != seg@[t as int]);
            }
            return false;
        }
        t = t + 1;
    }
    proof {
        assert(span_bytes(buf@, sp) =~= seg@);
    }
    true
}

/// Case-insensitive comparison of the buffer bytes at `sp` with `seg`.
#[verifier::loop_isolation(false)]
fn ieq_span_bytes(buf: &Vec<u8>, sp: Span, seg: &Vec<u8>) -> (r: bool)
    requires
        sp.start <= sp.end <= buf.len(),
    ensures
        r == bytes_ieq(span_bytes(buf@, sp), seg@),
{
    let n = sp.end - sp.start;
    if seg.len() != n {
        proof {
            assert(span_bytes(buf@, sp).len() == n);
        }
        return false;
    }
    let mut t: usize = 0;
    while t < n
        invariant
            0 <= t <= n,
            forall|q: int| 0 <= q < t ==> lower(buf@[sp.start + q]) == lower(seg@[q]),
        decreases n - t,
    {
        if lower_ex(buf[sp.start + t]) != lower_ex(seg[t]) {
            proof {
                assert(lower(span_bytes(buf@, sp)[t as int]) != lower(seg@[t as int]));
            }
            return false;
        }
        t = t + 1;
    }
    proof {
        assert forall|q: int| 0 <= q < n implies lower(
            #[trigger] span_bytes(buf@, sp)[q],
        ) == lower(seg@[q]) by {
            assert(span_bytes(buf@, sp)[q] == buf@[sp.start + q]);
        }
    }
    true
}

#[verifier::loop_isolation(false)]
fn find_header_ex(hs: &Vec<HeaderNode>, buf: &Vec<u8>, name: &Vec<u8>) -> (r: Option<usize>)
    requires
        headers_ok(hs@, buf@.len() as int),
    ensures
        match r {
            Some(h) => find_header(hs@, buf@, name@, 0) == Some(h as int) && h < hs@.len(),
            None => find_header(hs@, buf@, name@, 0) is None,
        },
{
    let mut k: usize = 0;
    while k < hs.len()
        invariant
            0 <= k <= hs@.len(),
            find_header(hs@, buf@, name@, 0) == find_header(hs@, buf@, name@, k as int),
        decreases hs@.len() - k,
    {
        let h = hs[k];
        if ieq_span_bytes(buf, h.name_span, name) {
            return Some(k);
        }
        k = k + 1;
    }
    None
}

#[verifier::loop_isolation(false)]
fn find_member_ex(ns: &Vec<JsonNode>, buf: &Vec<u8>, start: usize, pd: usize, seg: &Vec<u8>) -> (r:
    Option<usize>)
    requires
        nodes_ok(ns@, buf@.len() as int),
        start <= ns@.len(),
    ensures
        match r {
            Some(j) => find_member(ns@, buf@, start as int, pd, seg@) == Some(j as int) && j
                < ns@.len(),
            None => find_member(ns@, buf@, start as int, pd, seg@) is None,
        },
{
    let mut j = start;
    while j < ns.len()
        invariant
            start <= j <= ns@.len(),
            find_member(ns@, buf@, start as int, pd, seg@) == find_member(
                ns@,
                buf@,
                j as int,
                pd,
                seg@,
            ),
        decreases ns@.len() - j,
    {
        let nd = ns[j];
        if nd.depth <= pd {
            return None;
        }
        if nd.depth == pd + 1 {
            match nd.key_span {
                Some(ks) => {
                    if eq_span_bytes(buf, ks, seg) {
                        return Some(j);
                    }
                },
                None => {},
            }
        }
        j = j + 1;
    }
    None
}

/// Exec descent; mirrors `descend` segment by segment.
#[verifier::loop_isolation(false)]
fn descend_ex(ns: &Vec<JsonNode>, buf: &Vec<u8>, kp: &Keypath) -> (r: Option<Span>)
    requires
        nodes_ok(ns@, buf@.len() as int),
    ensures
        r == descend(ns@, buf@, 0, kp@, 0),
{
    if ns.len() == 0 {
        return None;
    }
    let mut cur: usize = 0;
    let mut si: usize = 0;
    loop
        invariant
            0 <= cur < ns@.len(),
            0 <= si <= kp@.len(),
            descend(ns@, buf@, 0, kp@, 0) == descend(ns@, buf@, cur as int, kp@, si as int),
        decreases kp@.len() - si,
    {
        if si >= kp.segments.len() {
            let nd = ns[cur];
            if matches!(nd.kind, JsonKind::Text) {
                return Some(Span { start: nd.span.start + 1, end: nd.span.end - 1 });
            } else {
                return Some(nd.span);
            }
        }
        let nd = ns[cur];
        if !matches!(nd.kind, JsonKind::Object) {
            return None;
        }
        proof {
            assert(kp@[si as int] == kp.segments@[si as int]@);
        }
        match find_member_ex(ns, buf, cur + 1, nd.depth, &kp.segments[si]) {
            None => {
                return None;
            },
            Some(j) => {
                cur = j;
                si = si + 1;
            },
        }
    }
}

impl Document {
    /// Resolve one keypath; `None` when any segment fails to match, which
    /// is tolerated, never an error.
    fn resolve_one(&self, kp: &Keypath) -> (r: Option<Span>)
        requires
            headers_ok(self.headers@, self.buf@.len() as int),
            nodes_ok(self.body@, self.buf@.len() as int),
        ensures
            r == resolve_kp(self.model(), self.buf@, kp@),
            r matches Some(sp) ==> sp.start <= sp.end <= self.buf@.len(),
    {
        proof {
            lemma_resolve_kp_valid(self.model(), self.buf@, kp@);
        }
        if kp.segments.len() == 0 {
            return None;
        }
        if kp.segments.len() == 1 {
            proof {
                assert(kp@[0] == kp.segments@[0]@);
            }
            match find_header_ex(&self.headers, &self.buf, &kp.segments[0]) {
                Some(h) => {
                    return Some(self.headers[h].value_span);
                },
                None => {},
            }
        }
        if self.body.len() > 0 {
            descend_ex(&self.body, &self.buf, kp)
        } else {
            None
        }
    }

    /// Resolve every keypath of both lists independently and merge the
    /// matched spans into one canonical range set. The covered offsets are
    /// exactly `kp_points` of the two lists taken together, so the result
    /// does not depend on the order of the lists or of their entries.
    #[verifier::loop_isolation(false)]
    pub fn resolve_keypaths(&self, allowlist: &Vec<Keypath>, denylist: &Vec<Keypath>) -> (r: RangeSet)
        requires
            self.wf(),
        ensures
            r.wf(),
            points(r@) == kp_points(
                self.model(),
                self.buf@,
                kps_view(allowlist@) + kps_view(denylist@),
            ),
    {
        let blen = self.buf.len();
        proof {
            assert(self.buf@.len() == blen);
            match self.kind {
                DocKind::Request => lemma_request_ok(self.buf@),
                DocKind::Response => lemma_response_ok(self.buf@),
            }
        }
        let ghost d = self.model();
        let ghost target = kps_view(allowlist@) + kps_view(denylist@);
        let mut spans: Vec<Span> = Vec::new();
        let mut k: usize = 0;
        while k < allowlist.len()
            invariant
                0 <= k <= allowlist@.len(),
                forall|q: int| 0 <= q < spans@.len() ==> (#[trigger] spans@[q]).start
                    <= spans@[q].end,
                points(spans@) =~= kp_points(d, self.buf@, kps_view(allowlist@.subrange(0, k as int))),
            decreases allowlist@.len() - k,
        {
            let ghost pre = kps_view(allowlist@.subrange(0, k as int));
            match self.resolve_one(&allowlist[k]) {
                Some(sp) => {
                    proof {
                        lemma_points_push(spans@, sp);
                    }
                    spans.push(sp);
                },
                None => {},
            }
            proof {
                lemma_kp_points_step(d, self.buf@, pre, allowlist@[k as int]@);
                assert(kps_view(allowlist@.subrange(0, k + 1)) =~= pre.push(allowlist@[k as int]@));
            }
            k = k + 1;
        }
        proof {
            assert(allowlist@.subrange(0, allowlist@.len() as int) =~= allowlist@);
        }
        let mut k2: usize = 0;
        while k2 < denylist.len()
            invariant
                0 <= k2 <= denylist@.len(),
                forall|q: int| 0 <= q < spans@.len() ==> (#[trigger] spans@[q]).start
                    <= spans@[q].end,
                points(spans@) =~= kp_points(
                    d,
                    self.buf@,
                    kps_view(allowlist@) + kps_view(denylist@.subrange(0, k2 as int)),
                ),
            decreases denylist@.len() - k2,
        {
            let ghost pre = kps_view(allowlist@) + kps_view(denylist@.subrange(0, k2 as int));
            match self.resolve_one(&denylist[k2]) {
                Some(sp) => {
                    proof {
                        lemma_points_push(spans@, sp);
                    }
                    spans.push(sp);
                },
                None => {},
            }
            proof {
                lemma_kp_points_step(d, self.buf@, pre, denylist@[k2 as int]@);
                assert(kps_view(allowlist@) + kps_view(denylist@.subrange(0, k2 + 1)) =~= pre.push(
                    denylist@[k2 as int]@,
                ));
            }
            k2 = k2 + 1;
        }
        proof {
            assert(denylist@.subrange(0, denylist@.len() as int) =~= denylist@);
        }
        merge_spans(&spans)
    }
}

/// Appending one keypath to a list adds exactly the offsets of the span it
/// resolves to (or nothing, when it does not resolve).
proof fn lemma_kp_points_step(d: DocModel, buf: Seq<u8>, kps: Seq<Seq<Seq<u8>>>, kp: Seq<Seq<u8>>)
    ensures
        kp_points(d, buf, kps.push(kp)) =~= kp_points(d, buf, kps).union(
            match resolve_kp(d, buf, kp) {
                Some(sp) => span_points(sp),
                None => Set::<int>::empty(),
            },
        ),
{
    let lhs = kp_points(d, buf, kps.push(kp));
    let rhs = kp_points(d, buf, kps).union(
        match resolve_kp(d, buf, kp) {
            Some(sp) => span_points(sp),
            None => Set::<int>::empty(),
        },
    );
    assert forall|p: int| lhs.contains(p) implies rhs.contains(p) by {
        let k = choose|k: int|
            {
                &&& 0 <= k < kps.push(kp).len()
                &&& (#[trigger] resolve_kp(d, buf, kps.push(kp)[k])) matches Some(sp)
                &&& span_in(sp, p)
            };
        if k < kps.len() {
            assert(kps.push(kp)[k] == kps[k]);
            assert(kp_points(d, buf, kps).contains(p));
        } else {
            assert(kps.push(kp)[k] == kp);
        }
    }
    assert forall|p: int| rhs.contains(p) implies lhs.contains(p) by {
        if kp_points(d, buf, kps).contains(p) {
            let k = choose|k: int|
                {
                    &&& 0 <= k < kps.len()
                    &&& (#[trigger] resolve_kp(d, buf, kps[k])) matches Some(sp)
                    &&& span_in(sp, p)
                };
            assert(kps.push(kp)[k] == kps[k]);
            assert(resolve_kp(d, buf, kps.push(kp)[k]) matches Some(sp) && span_in(sp, p));
        } else {
            let k = kps.len() as int;
            assert(kps.push(kp)[k] == kp);
            assert(resolve_kp(d, buf, kps.push(kp)[k]) matches Some(sp) && span_in(sp, p));
        }
    }
}

} // verus!
