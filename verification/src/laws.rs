//! The library-wide laws, stated once and proved from the public
//! contracts of the parser, the resolver and the range set builder.

use vstd::prelude::*;
use crate::span::{Span, span_in, points, canonical, lemma_canonical_unique};
use crate::http::{DocModel, sp_request, sp_response};
use crate::resolve::{resolve_kp, kp_points};

verus! {

/// Determinism of request parsing: the parsed document is a function of
/// the transcript bytes alone, so parsing identical bytes twice produces
/// structurally identical trees and spans. (`parse_request` ensures its
/// result equals `sp_request` of its input, which is what makes this
/// statement reach the executable parser.)
pub proof fn lemma_parse_request_deterministic(b1: Seq<u8>, b2: Seq<u8>, m1: DocModel, m2: DocModel)
    requires
        b1 == b2,
        sp_request(b1) == Some(m1),
        sp_request(b2) == Some(m2),
    ensures
        m1 == m2,
{
}

/// Determinism of response parsing; see `lemma_parse_request_deterministic`.
pub proof fn lemma_parse_response_deterministic(
    b1: Seq<u8>,
    b2: Seq<u8>,
    m1: DocModel,
    m2: DocModel,
)
    requires
        b1 == b2,
        sp_response(b1) == Some(m1),
        sp_response(b2) == Some(m2),
    ensures
        m1 == m2,
{
}

/// Order-independence of resolution: two canonical range sets built for
/// keypath lists holding the same keypaths — in any order, with any
/// repetitions — are identical. Together with the contract of
/// `resolve_keypaths` (whose result is canonical and covers exactly
/// `kp_points` of its lists) this says permuting the allowlist and
/// denylist entries can never change the resolver's output.
pub proof fn lemma_resolve_order_independent(
    d: DocModel,
    buf: Seq<u8>,
    kps1: Seq<Seq<Seq<u8>>>,
    kps2: Seq<Seq<Seq<u8>>>,
    r1: Seq<Span>,
    r2: Seq<Span>,
)
    requires
        forall|kp: Seq<Seq<u8>>| kps1.contains(kp) <==> kps2.contains(kp),
        canonical(r1),
        canonical(r2),
        points(r1) == kp_points(d, buf, kps1),
        points(r2) == kp_points(d, buf, kps2),
    ensures
        r1 == r2,
{
    assert forall|p: int| kp_points(d, buf, kps1).contains(p) implies kp_points(
        d,
        buf,
        kps2,
    ).contains(p) by {
        let k = choose|k: int|
            {
                &&& 0 <= k < kps1.len()
                &&& (#[trigger] resolve_kp(d, buf, kps1[k])) matches Some(sp)
                &&& span_in(sp, p)
            };
        assert(kps1.contains(kps1[k]));
        let m = choose|m: int| 0 <= m < kps2.len() && kps2[m] == kps1[k];
        assert(resolve_kp(d, buf, kps2[m]) matches Some(sp) && span_in(sp, p));
    }
    assert forall|p: int| kp_points(d, buf, kps2).contains(p) implies kp_points(
        d,
        buf,
        kps1,
    ).contains(p) by {
        let k = choose|k: int|
            {
                &&& 0 <= k < kps2.len()
                &&& (#[trigger] resolve_kp(d, buf, kps2[k])) matches Some(sp)
                &&& span_in(sp, p)
            };
        assert(kps2.contains(kps2[k]));
        let m = choose|m: int| 0 <= m < kps1.len() && kps1[m] == kps2[k];
        assert(resolve_kp(d, buf, kps1[m]) matches Some(sp) && span_in(sp, p));
    }
    assert(points(r1) =~= points(r2));
    lemma_canonical_unique(r1, r2);
}

/// Non-overlap: in a canonical range set every span ends no later than the
/// next one starts (in fact strictly earlier — adjacent spans are merged).
pub proof fn lemma_canonical_non_overlap(ss: Seq<Span>)
    requires
        canonical(ss),
    ensures
        forall|i: int| 0 <= i && i + 1 < ss.len() ==> (#[trigger] ss[i]).end <= ss[i + 1].start,
{
}

/// Missing-field tolerance: a keypath that does not resolve contributes no
/// byte offsets at all — and, by the resolver's contract, no error either.
pub proof fn lemma_absent_keypath_contributes_nothing(d: DocModel, buf: Seq<u8>, kp: Seq<Seq<u8>>)
    requires
        resolve_kp(d, buf, kp) is None,
    ensures
        kp_points(d, buf, seq![kp]) == Set::<int>::empty(),
{
    assert forall|p: int| !kp_points(d, buf, seq![kp]).contains(p) by {
        if kp_points(d, buf, seq![kp]).contains(p) {
            let k = choose|k: int|
                {
                    &&& 0 <= k < seq![kp].len()
                    &&& (#[trigger] resolve_kp(d, buf, seq![kp][k])) matches Some(sp)
                    &&& span_in(sp, p)
                };
            assert(seq![kp][k] == kp);
        }
    }
    assert(kp_points(d, buf, seq![kp]) =~= Set::<int>::empty());
}

} // verus!
