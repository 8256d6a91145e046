//! Byte spans and canonical range sets.
//!
//! A `Span` is a half-open interval `[start, end)` of byte offsets into one
//! transcript buffer. A `RangeSet` is the canonical form of a collection of
//! spans: sorted ascending by start, with no two spans overlapping or
//! adjacent. The meaning of a span collection is its set of covered byte
//! offsets, `points`; building the canonical form never changes that set.

use vstd::prelude::*;
use crate::errors::Errors;

verus! {

/// A half-open byte interval `[start, end)` into a source buffer.
#[derive(Clone, Copy, PartialEq, Eq, Structural, Debug)]
pub struct Span {
    pub start: usize,
    pub end: usize,
}

/// Offset `p` lies inside `sp`.
pub open spec fn span_in(sp: Span, p: int) -> bool {
    sp.start <= p < sp.end
}

/// The set of byte offsets covered by one span.
pub open spec fn span_points(sp: Span) -> Set<int> {
    Set::new(|p: int| span_in(sp, p))
}

/// `sp` is a well-formed interval that stays within a buffer of length `limit`.
pub open spec fn span_valid(sp: Span, limit: int) -> bool {
    sp.start <= sp.end && sp.end <= limit
}

pub open spec fn all_valid(ss: Seq<Span>, limit: int) -> bool {
    forall|i: int| 0 <= i < ss.len() ==> span_valid(#[trigger] ss[i], limit)
}

/// The set of byte offsets covered by a collection of spans.
pub open spec fn points(ss: Seq<Span>) -> Set<int> {
    Set::new(|p: int| exists|i: int| 0 <= i < ss.len() && span_in(#[trigger] ss[i], p))
}

/// Canonical form: every span non-empty, sorted ascending, and no two
/// spans overlapping or even adjacent (an adjacent pair would have been
/// merged into one).
pub open spec fn canonical(ss: Seq<Span>) -> bool {
    &&& forall|i: int| 0 <= i < ss.len() ==> (#[trigger] ss[i]).start < ss[i].end
    &&& forall|i: int| 0 <= i && i + 1 < ss.len() ==> (#[trigger] ss[i]).end < ss[i + 1].start
}

/// In a canonical sequence every earlier span ends strictly before every
/// later span starts, not just the neighbouring ones.
pub proof fn lemma_canonical_gap(ss: Seq<Span>, j: int, k: int)
    requires
        canonical(ss),
        0 <= j < k < ss.len(),
    ensures
        ss[j].end < ss[k].start,
    decreases k - j,
{
    if j + 1 < k {
        lemma_canonical_gap(ss, j, k - 1);
        assert(ss[k - 1].end < ss[k].start);
    }
}

pub proof fn lemma_points_push(ss: Seq<Span>, sp: Span)
    ensures
        points(ss.push(sp)) =~= points(ss).union(span_points(sp)),
{
    assert forall|p: int| points(ss.push(sp)).contains(p) implies points(ss).union(
        span_points(sp),
    ).contains(p) by {
        let i = choose|i: int| 0 <= i < ss.push(sp).len() && span_in(#[trigger] ss.push(sp)[i], p);
        if i < ss.len() {
            assert(span_in(ss[i], p));
        } else {
            assert(span_in(sp, p));
        }
    }
    assert forall|p: int| points(ss).union(span_points(sp)).contains(p) implies points(
        ss.push(sp),
    ).contains(p) by {
        if points(ss).contains(p) {
            let i = choose|i: int| 0 <= i < ss.len() && span_in(#[trigger] ss[i], p);
            assert(span_in(ss.push(sp)[i], p));
        } else {
            assert(span_in(ss.push(sp)[ss.len() as int], p));
        }
    }
}

pub proof fn lemma_points_concat(a: Seq<Span>, b: Seq<Span>)
    ensures
        points(a + b) =~= points(a).union(points(b)),
{
    assert forall|p: int| points(a + b).contains(p) implies points(a).union(points(b)).contains(
        p,
    ) by {
        let i = choose|i: int| 0 <= i < (a + b).len() && span_in(#[trigger] (a + b)[i], p);
        if i < a.len() {
            assert(span_in(a[i], p));
        } else {
            assert(span_in(b[i - a.len()], p));
        }
    }
    assert forall|p: int| points(a).union(points(b)).contains(p) implies points(a + b).contains(
        p,
    ) by {
        if points(a).contains(p) {
            let i = choose|i: int| 0 <= i < a.len() && span_in(#[trigger] a[i], p);
            assert(span_in((a + b)[i], p));
        } else {
            let i = choose|i: int| 0 <= i < b.len() && span_in(#[trigger] b[i], p);
            assert(span_in((a + b)[a.len() + i], p));
        }
    }
}

/// Two overlapping or adjacent intervals cover together exactly the interval
/// from the smaller start to the larger end.
proof fn lemma_interval_union(m: Span, x: Span, r: Span)
    requires
        m.start <= m.end,
        x.start <= x.end,
        x.start <= m.end,
        m.start <= x.end,
        r.start == if x.start < m.start { x.start } else { m.start },
        r.end == if x.end > m.end { x.end } else { m.end },
    ensures
        span_points(r) =~= span_points(m).union(span_points(x)),
{
}

/// Splicing one interval `m` over the window `ss[a..b]` that it absorbed
/// keeps the sequence canonical and adds exactly the offsets of `sp`.
#[verifier::rlimit(40)]
proof fn lemma_splice(ss: Seq<Span>, sp: Span, m: Span, a: int, b: int)
    requires
        canonical(ss),
        0 <= a <= b <= ss.len(),
        sp.start < sp.end,
        forall|j: int| 0 <= j < a ==> (#[trigger] ss[j]).end < sp.start,
        b < ss.len() ==> ss[b].start > sp.end,
        m.start <= sp.start,
        m.end >= sp.end,
        m.start == sp.start || (a < b && m.start == ss[a].start),
        m.end == sp.end || (exists|j: int| a <= j < b && m.end == (#[trigger] ss[j]).end),
        span_points(m) == span_points(sp).union(points(ss.subrange(a, b))),
    ensures
        canonical(ss.subrange(0, a) + seq![m] + ss.subrange(b, ss.len() as int)),
        points(ss.subrange(0, a) + seq![m] + ss.subrange(b, ss.len() as int)) =~= points(
            ss,
        ).union(span_points(sp)),
{
    let n = ss.len() as int;
    let left = ss.subrange(0, a);
    let window = ss.subrange(a, b);
    let right = ss.subrange(b, n);
    let res = left + seq![m] + right;
    assert(res.len() == a + 1 + (n - b));
    // m sits strictly after the left part ...
    if a > 0 {
        assert(ss[a - 1].end < sp.start);
        if a < b && m.start == ss[a].start {
            assert(ss[a - 1].end < ss[a].start);
        }
        assert(ss[a - 1].end < m.start);
    }
    // ... and strictly before the right part.
    if b < n {
        if m.end == sp.end {
            assert(m.end < ss[b].start);
        } else {
            let w = choose|w: int| a <= w < b && m.end == (#[trigger] ss[w]).end;
            lemma_canonical_gap(ss, w, b);
            assert(m.end < ss[b].start);
        }
    }
    assert forall|j: int| 0 <= j < res.len() implies (#[trigger] res[j]).start < res[j].end by {
        if j < a {
            assert(res[j] == ss[j]);
        } else if j == a {
            assert(m.start <= sp.start < sp.end <= m.end);
        } else {
            assert(res[j] == ss[b + j - a - 1]);
        }
    }
    assert forall|j: int| 0 <= j && j + 1 < res.len() implies (#[trigger] res[j]).end < res[j
        + 1].start by {
        if j + 1 < a {
            assert(res[j] == ss[j] && res[j + 1] == ss[j + 1]);
        } else if j + 1 == a {
            assert(res[j] == ss[j] && res[j + 1] == m);
        } else if j == a {
            assert(res[j + 1] == ss[b]);
        } else {
            assert(res[j] == ss[b + j - a - 1] && res[j + 1] == ss[b + j - a]);
            assert(b + j - a - 1 + 1 == b + j - a);
        }
    }
    // Covered offsets.
    lemma_points_concat(left + seq![m], right);
    lemma_points_concat(left, seq![m]);
    lemma_points_concat(left + window, right);
    lemma_points_concat(left, window);
    assert(ss =~= (left + window) + right);
    assert(points(seq![m]) =~= span_points(m)) by {
        assert forall|p: int| span_points(m).contains(p) implies points(seq![m]).contains(p) by {
            assert(span_in(seq![m][0], p));
        }
    }
    assert(points(res) =~= points(ss).union(span_points(sp)));
}

/// A canonical, non-overlapping set of byte ranges selected for disclosure.
#[derive(Debug, PartialEq, Eq)]
pub struct RangeSet {
    pub spans: Vec<Span>,
}

impl View for RangeSet {
    type V = Seq<Span>;

    open spec fn view(&self) -> Seq<Span> {
        self.spans@
    }
}

impl RangeSet {
    /// Well-formedness: the spans are in canonical form.
    pub open spec fn wf(&self) -> bool {
        canonical(self@)
    }

    pub fn new() -> (r: RangeSet)
        ensures
            r.wf(),
            r@ == Seq::<Span>::empty(),
            points(r@) == Set::<int>::empty(),
    {
        let r = RangeSet { spans: Vec::new() };
        proof {
            assert(points(r@) =~= Set::<int>::empty());
        }
        r
    }

    pub fn len(&self) -> (n: usize)
        ensures
            n == self@.len(),
    {
        self.spans.len()
    }

    /// Add one span, keeping the set canonical; the covered offsets grow by
    /// exactly the offsets of `sp`.
    #[verifier::loop_isolation(false)]
    pub fn insert_span(&mut self, sp: Span)
        requires
            old(self).wf(),
            sp.start <= sp.end,
        ensures
            final(self).wf(),
            points(final(self)@) == points(old(self)@).union(span_points(sp)),
    {
        let ghost ss = self.spans@;
        if sp.start == sp.end {
            proof {
                assert(span_points(sp) =~= Set::<int>::empty());
                assert(points(ss).union(span_points(sp)) =~= points(ss));
            }
            return ;
        }
        let n = self.spans.len();
        let mut res: Vec<Span> = Vec::new();
        let mut i: usize = 0;
        // Spans entirely before `sp`, with a gap: copied unchanged.
        while i < n && self.spans[i].end < sp.start
            invariant
                0 <= i <= n,
                res@ == ss.subrange(0, i as int),
                forall|j: int| 0 <= j < i ==> (#[trigger] ss[j]).end < sp.start,
            decreases n - i,
        {
            res.push(self.spans[i]);
            proof {
                assert(res@ =~= ss.subrange(0, i + 1));
            }
            i = i + 1;
        }
        let ghost a = i as int;
        // Spans overlapping or adjacent to `sp`: folded into one interval.
        let mut m = sp;
        proof {
            assert(span_points(m) =~= span_points(sp).union(points(ss.subrange(a, a))));
        }
        while i < n && self.spans[i].start <= sp.end
            invariant
                a <= i <= n,
                m.start <= sp.start,
                m.end >= sp.end,
                m.start == sp.start || (a < i && m.start == ss[a].start),
                m.end == sp.end || (exists|j: int| a <= j < i && m.end == (#[trigger] ss[j]).end),
                span_points(m) =~= span_points(sp).union(points(ss.subrange(a, i as int))),
            decreases n - i,
        {
            let ghost m0 = m;
            let x = self.spans[i];
            proof {
                if a < i {
                    lemma_canonical_gap(ss, a, i as int);
                }
                assert(x.start <= sp.end);
                assert(m0.start <= x.end);
                assert(x.start <= m0.end);
            }
            if x.start < m.start {
                m.start = x.start;
            }
            if x.end > m.end {
                m.end = x.end;
            }
            proof {
                lemma_interval_union(m0, x, m);
                lemma_points_push(ss.subrange(a, i as int), x);
                assert(ss.subrange(a, i + 1) =~= ss.subrange(a, i as int).push(x));
                assert(span_points(m) =~= span_points(sp).union(points(ss.subrange(a, i + 1))));
            }
            i = i + 1;
        }
        let ghost b = i as int;
        res.push(m);
        proof {
            assert(res@ =~= ss.subrange(0, a) + seq![m] + ss.subrange(b, b));
        }
        // Spans entirely after `sp`, with a gap: copied unchanged.
        while i < n
            invariant
                b <= i <= n,
                res@ == ss.subrange(0, a) + seq![m] + ss.subrange(b, i as int),
            decreases n - i,
        {
            res.push(self.spans[i]);
            proof {
                assert(res@ =~= ss.subrange(0, a) + seq![m] + ss.subrange(b, i + 1));
            }
            i = i + 1;
        }
        proof {
            lemma_splice(ss, sp, m, a, b);
        }
        self.spans = res;
    }
}

/// Merge a collection of well-formed spans into canonical form. The covered
/// byte offsets are preserved exactly; only the representation changes.
#[verifier::loop_isolation(false)]
pub fn merge_spans(spans: &Vec<Span>) -> (r: RangeSet)
    requires
        forall|i: int| 0 <= i < spans@.len() ==> (#[trigger] spans@[i]).start <= spans@[i].end,
    ensures
        r.wf(),
        points(r@) == points(spans@),
{
    let mut r = RangeSet::new();
    let n = spans.len();
    let mut k: usize = 0;
    while k < n
        invariant
            0 <= k <= n,
            r.wf(),
            points(r@) =~= points(spans@.subrange(0, k as int)),
        decreases n - k,
    {
        r.insert_span(spans[k]);
        proof {
            lemma_points_push(spans@.subrange(0, k as int), spans@[k as int]);
            assert(spans@.subrange(0, k + 1) =~= spans@.subrange(0, k as int).push(
                spans@[k as int],
            ));
        }
        k = k + 1;
    }
    proof {
        assert(spans@.subrange(0, n as int) =~= spans@);
    }
    r
}

/// Build the canonical range set for `spans` over a source buffer of
/// `limit` bytes. Any inverted span, or span reaching past the end of the
/// buffer, is rejected as a hard error: an undetected violation here would
/// be a disclosure-correctness bug, not merely a crash.
#[verifier::loop_isolation(false)]
pub fn merge(spans: &Vec<Span>, limit: usize) -> (r: Result<RangeSet, Errors>)
    ensures
        match r {
            Ok(rs) => {
                &&& all_valid(spans@, limit as int)
                &&& rs.wf()
                &&& points(rs@) == points(spans@)
            },
            Err(e) => {
                &&& !all_valid(spans@, limit as int)
                &&& e matches Errors::InvalidRange(sp) && spans@.contains(sp) && !span_valid(
                    sp,
                    limit as int,
                )
            },
        },
{
    let n = spans.len();
    let mut k: usize = 0;
    while k < n
        invariant
            0 <= k <= n,
            forall|i: int| 0 <= i < k ==> span_valid(#[trigger] spans@[i], limit as int),
        decreases n - k,
    {
        let sp = spans[k];
        if sp.start > sp.end || sp.end > limit {
            proof {
                assert(spans@[k as int] == sp);
                assert(!span_valid(sp, limit as int));
            }
            return Err(Errors::InvalidRange(sp));
        }
        k = k + 1;
    }
    Ok(merge_spans(spans))
}

/// Canonical forms are unique: two canonical sequences covering the same
/// byte offsets are the same sequence. This is what makes the resolver's
/// output independent of the order in which spans were gathered.
#[verifier::rlimit(40)]
pub proof fn lemma_canonical_unique(x: Seq<Span>, y: Seq<Span>)
    requires
        canonical(x),
        canonical(y),
        points(x) == points(y),
    ensures
        x == y,
    decreases x.len(),
{
    if x.len() == 0 && y.len() == 0 {
        assert(x =~= y);
    } else if x.len() == 0 {
        assert(span_in(y[0], y[0].start as int));
        assert(points(x).contains(y[0].start as int));
        assert(false);
    } else if y.len() == 0 {
        assert(span_in(x[0], x[0].start as int));
        assert(points(y).contains(x[0].start as int));
        assert(false);
    } else {
        lemma_canonical_first_start(x, y);
        lemma_canonical_first_start(y, x);
        lemma_canonical_first_end(x, y);
        lemma_canonical_first_end(y, x);
        assert(x[0] == y[0]);
        let xt = x.subrange(1, x.len() as int);
        let yt = y.subrange(1, y.len() as int);
        lemma_canonical_tail(x);
        lemma_canonical_tail(y);
        assert(points(xt) == points(x).difference(span_points(x[0])));
        assert(points(yt) == points(y).difference(span_points(y[0])));
        assert(points(xt) == points(yt));
        lemma_canonical_unique(xt, yt);
        assert(x =~= y) by {
            assert(x.len() == y.len());
            assert(forall|i: int| 1 <= i < x.len() ==> x[i] == xt[i - 1] && y[i] == yt[i - 1]);
        }
    }
}

/// The first span of a canonical sequence starts at the least covered
/// offset, so it cannot start later than the other sequence's first span.
proof fn lemma_canonical_first_start(x: Seq<Span>, y: Seq<Span>)
    requires
        canonical(x),
        canonical(y),
        points(x) == points(y),
        x.len() > 0,
        y.len() > 0,
    ensures
        y[0].start <= x[0].start,
{
    assert(span_in(x[0], x[0].start as int));
    assert(points(y).contains(x[0].start as int));
    let i = choose|i: int| 0 <= i < y.len() && span_in(#[trigger] y[i], x[0].start as int);
    if i > 0 {
        lemma_canonical_gap(y, 0, i);
    }
}

/// With equal starts, the first span of a canonical sequence ends at the
/// first uncovered offset, so it cannot end before the other's first span.
proof fn lemma_canonical_first_end(x: Seq<Span>, y: Seq<Span>)
    requires
        canonical(x),
        canonical(y),
        points(x) == points(y),
        x.len() > 0,
        y.len() > 0,
        x[0].start == y[0].start,
    ensures
        y[0].end >= x[0].end,
{
    // Suppose y[0] ended inside x[0]; then the offset y[0].end would be
    // covered by x but fall in a gap of y.
    if y[0].end < x[0].end {
        let p = y[0].end as int;
        assert(y[0].start < y[0].end);
        assert(span_in(x[0], p));
        assert(points(y).contains(p));
        let j = choose|j: int| 0 <= j < y.len() && span_in(#[trigger] y[j], p);
        if j > 0 {
            lemma_canonical_gap(y, 0, j);
            assert(p < y[j].start);
        }
        assert(false);
    }
}

/// Dropping the first span of a canonical sequence removes exactly its
/// offsets from the point set.
proof fn lemma_canonical_tail(x: Seq<Span>)
    requires
        canonical(x),
        x.len() > 0,
    ensures
        canonical(x.subrange(1, x.len() as int)),
        points(x.subrange(1, x.len() as int)) =~= points(x).difference(span_points(x[0])),
{
    let t = x.subrange(1, x.len() as int);
    assert forall|p: int| points(t).contains(p) implies points(x).difference(
        span_points(x[0]),
    ).contains(p) by {
        let i = choose|i: int| 0 <= i < t.len() && span_in(#[trigger] t[i], p);
        assert(t[i] == x[i + 1]);
        assert(span_in(x[i + 1], p));
        lemma_canonical_gap(x, 0, i + 1);
        assert(p >= x[i + 1].start > x[0].end);
    }
    assert forall|p: int| points(x).difference(span_points(x[0])).contains(p) implies points(
        t,
    ).contains(p) by {
        let i = choose|i: int| 0 <= i < x.len() && span_in(#[trigger] x[i], p);
        assert(i != 0);
        assert(t[i - 1] == x[i]);
        assert(span_in(t[i - 1], p));
    }
}

} // verus!
