//! The disclosure session's decisions, as pure functions.
//!
//! The surrounding program drives the asynchronous steps — connecting,
//! the cryptographic handshake, sending the request, fetching the two
//! transcripts, committing the disclosure — and calls in here for every
//! decision: whether the configuration is acceptable, whether the server
//! answer allows the session to continue, and which byte ranges of each
//! transcript are to be disclosed. Any parse failure aborts the session:
//! disclosure is all-or-nothing, never partial.

use vstd::prelude::*;
use crate::errors::Errors;
use crate::span::{RangeSet, points};
use crate::http::{sp_request, sp_response, parse_request, parse_response};
use crate::json::max_message_len;
use crate::resolve::{Keypath, keypath_from_bytes, kps_view, kp_points, sp_split};

verus! {

pub open spec fn https_scheme() -> Seq<u8> {
    seq!['h' as u8, 't' as u8, 't' as u8, 'p' as u8, 's' as u8]
}

/// The default server port when the target URI names none.
pub const DEFAULT_TLS_PORT: u16 = 443;

/// Validate the connection parameters taken from the target URI: the
/// scheme must be exactly `https`, a host must be present, and a missing
/// port falls back to the default. Returns the host and port to connect to.
pub fn validate_connection_params(scheme: Option<Vec<u8>>, host: Option<Vec<u8>>, port: Option<
    u16,
>) -> (r: Result<(Vec<u8>, u16), Errors>)
    ensures
        match r {
            Ok((h, p)) => {
                &&& scheme matches Some(s) && s@ == https_scheme()
                &&& host matches Some(hv) && hv@ == h@
                &&& p == match port {
                    Some(q) => q,
                    None => DEFAULT_TLS_PORT,
                }
            },
            Err(e) => match e {
                Errors::InvalidScheme => !(scheme matches Some(s) && s@ == https_scheme()),
                Errors::MissingAuthority => (scheme matches Some(s) && s@ == https_scheme())
                    && host is None,
                _ => false,
            },
        },
{
    let ok_scheme: bool = match &scheme {
        Some(s) => {
            let good = s.len() == 5 && s[0] == 'h' as u8 && s[1] == 't' as u8 && s[2] == 't' as u8
                && s[3] == 'p' as u8 && s[4] == 's' as u8;
            proof {
                if good {
                    assert(s@ =~= https_scheme());
                } else if s@.len() == 5 && s@ == https_scheme() {
                    assert(s@[0] == 'h' as u8 && s@[1] == 't' as u8 && s@[2] == 't' as u8 && s@[3]
                        == 'p' as u8 && s@[4] == 's' as u8);
                }
            }
            good
        },
        None => false,
    };
    if !ok_scheme {
        return Err(Errors::InvalidScheme);
    }
    match host {
        None => Err(Errors::MissingAuthority),
        Some(h) => {
            let p = match port {
                Some(q) => q,
                None => DEFAULT_TLS_PORT,
            };
            Ok((h, p))
        },
    }
}

/// The session continues only on a 200 answer; anything else aborts it.
pub fn check_status(status: u16) -> (r: Result<(), Errors>)
    ensures
        r is Ok <==> status == 200,
        r matches Err(e) ==> e == Errors::UnexpectedStatus,
{
    if status == 200 {
        Ok(())
    } else {
        Err(Errors::UnexpectedStatus)
    }
}

/// A direction-specific keypath policy: which fields of each transcript
/// to reveal, and which to keep hidden. The two lists are resolved
/// independently; neither is ever treated as the complement of the other.
pub struct DisclosurePolicy {
    pub sent_allowlist: Vec<Keypath>,
    pub sent_denylist: Vec<Keypath>,
    pub recv_allowlist: Vec<Keypath>,
    pub recv_denylist: Vec<Keypath>,
}

/// Parse both transcripts under their grammars and resolve the policy to
/// one canonical range set per direction. Succeeds exactly when both
/// transcripts are grammatical; the first parse failure aborts, and no
/// partial range set is ever produced.
pub fn disclosure_ranges(sent: Vec<u8>, recv: Vec<u8>, policy: &DisclosurePolicy) -> (r: Result<
    (RangeSet, RangeSet),
    Errors,
>)
    requires
        sent@.len() <= max_message_len(),
        recv@.len() <= max_message_len(),
    ensures
        match r {
            Ok((sr, rr)) => {
                &&& sp_request(sent@) matches Some(m) && sr.wf() && points(sr@) == kp_points(
                    m,
                    sent@,
                    kps_view(policy.sent_allowlist@) + kps_view(policy.sent_denylist@),
                )
                &&& sp_response(recv@) matches Some(m2) && rr.wf() && points(rr@) == kp_points(
                    m2,
                    recv@,
                    kps_view(policy.recv_allowlist@) + kps_view(policy.recv_denylist@),
                )
            },
            Err(e) => match e {
                Errors::ParseRequest(_) => sp_request(sent@) is None,
                Errors::ParseResponse(_) => sp_request(sent@) is Some && sp_response(recv@)
                    is None,
                _ => false,
            },
        },
{
    let req = match parse_request(sent) {
        Ok(d) => d,
        Err(pe) => {
            return Err(Errors::ParseRequest(pe));
        },
    };
    let resp = match parse_response(recv) {
        Ok(d) => d,
        Err(pe) => {
            return Err(Errors::ParseResponse(pe));
        },
    };
    let sr = req.resolve_keypaths(&policy.sent_allowlist, &policy.sent_denylist);
    let rr = resp.resolve_keypaths(&policy.recv_allowlist, &policy.recv_denylist);
    Ok((sr, rr))
}

pub open spec fn path_host() -> Seq<u8> {
    seq!['h' as u8, 'o' as u8, 's' as u8, 't' as u8]
}

pub open spec fn path_state() -> Seq<u8> {
    seq!['s' as u8, 't' as u8, 'a' as u8, 't' as u8, 'e' as u8]
}

pub open spec fn path_comment() -> Seq<u8> {
    seq!['c' as u8, 'o' as u8, 'm' as u8, 'm' as u8, 'e' as u8, 'n' as u8, 't' as u8]
}

pub open spec fn path_currency() -> Seq<u8> {
    seq!['c' as u8, 'u' as u8, 'r' as u8, 'r' as u8, 'e' as u8, 'n' as u8, 'c' as u8, 'y' as u8]
}

pub open spec fn path_amount() -> Seq<u8> {
    seq!['a' as u8, 'm' as u8, 'o' as u8, 'u' as u8, 'n' as u8, 't' as u8]
}

pub open spec fn path_recipient_account() -> Seq<u8> {
    seq![
        'r' as u8,
        'e' as u8,
        'c' as u8,
        'i' as u8,
        'p' as u8,
        'i' as u8,
        'e' as u8,
        'n' as u8,
        't' as u8,
        '.' as u8,
        'a' as u8,
        'c' as u8,
        'c' as u8,
        'o' as u8,
        'u' as u8,
        'n' as u8,
        't' as u8,
    ]
}

pub open spec fn path_recipient_username() -> Seq<u8> {
    seq![
        'r' as u8,
        'e' as u8,
        'c' as u8,
        'i' as u8,
        'p' as u8,
        'i' as u8,
        'e' as u8,
        'n' as u8,
        't' as u8,
        '.' as u8,
        'u' as u8,
        's' as u8,
        'e' as u8,
        'r' as u8,
        'n' as u8,
        'a' as u8,
        'm' as u8,
        'e' as u8,
    ]
}

pub open spec fn path_recipient_code() -> Seq<u8> {
    seq![
        'r' as u8,
        'e' as u8,
        'c' as u8,
        'i' as u8,
        'p' as u8,
        'i' as u8,
        'e' as u8,
        'n' as u8,
        't' as u8,
        '.' as u8,
        'c' as u8,
        'o' as u8,
        'd' as u8,
        'e' as u8,
    ]
}

pub open spec fn path_beneficiary_account() -> Seq<u8> {
    seq![
        'b' as u8,
        'e' as u8,
        'n' as u8,
        'e' as u8,
        'f' as u8,
        'i' as u8,
        'c' as u8,
        'i' as u8,
        'a' as u8,
        'r' as u8,
        'y' as u8,
        '.' as u8,
        'a' as u8,
        'c' as u8,
        'c' as u8,
        'o' as u8,
        'u' as u8,
        'n' as u8,
        't' as u8,
    ]
}

/// The keypath lists the default policy resolves, as path texts.
pub open spec fn default_recv_paths() -> Seq<Seq<u8>> {
    seq![
        path_state(),
        path_comment(),
        path_currency(),
        path_amount(),
        path_recipient_account(),
        path_recipient_username(),
        path_recipient_code(),
        path_beneficiary_account(),
    ]
}

/// The default policy: reveal the fixed set of response fields, and keep
/// the request's host header hidden while the rest of the request is
/// revealed by the surrounding layer.
pub fn default_policy() -> (r: DisclosurePolicy)
    ensures
        r.sent_allowlist@.len() == 0,
        kps_view(r.sent_denylist@) == seq![sp_split(path_host())],
        kps_view(r.recv_allowlist@) == Seq::new(
            default_recv_paths().len(),
            |i: int| sp_split(default_recv_paths()[i]),
        ),
        r.recv_denylist@.len() == 0,
{
    let mut host: Vec<u8> = Vec::new();
    host.push('h' as u8);
    host.push('o' as u8);
    host.push('s' as u8);
    host.push('t' as u8);
    proof {
        assert(host@ =~= path_host());
    }
    let mut sent_denylist: Vec<Keypath> = Vec::new();
    sent_denylist.push(keypath_from_bytes(&host));
    let texts = default_recv_path_texts();
    let mut recv_allowlist: Vec<Keypath> = Vec::new();
    let mut k: usize = 0;
    while k < texts.len()
        invariant
            0 <= k <= texts@.len(),
            texts@.len() == default_recv_paths().len(),
            forall|i: int| 0 <= i < texts@.len() ==> (#[trigger] texts@[i])@
                == default_recv_paths()[i],
            recv_allowlist@.len() == k,
            forall|i: int| 0 <= i < k ==> (#[trigger] recv_allowlist@[i])@ == sp_split(
                default_recv_paths()[i],
            ),
        decreases texts@.len() - k,
    {
        recv_allowlist.push(keypath_from_bytes(&texts[k]));
        k = k + 1;
    }
    let r = DisclosurePolicy {
        sent_allowlist: Vec::new(),
        sent_denylist,
        recv_allowlist,
        recv_denylist: Vec::new(),
    };
    proof {
        assert(kps_view(r.sent_denylist@) =~= seq![sp_split(path_host())]);
        assert(kps_view(r.recv_allowlist@) =~= Seq::new(
            default_recv_paths().len(),
            |i: int| sp_split(default_recv_paths()[i]),
        ));
    }
    r
}

/// The dotted path texts of the default receive allowlist, in order.
fn default_recv_path_texts() -> (r: Vec<Vec<u8>>)
    ensures
        r@.len() == default_recv_paths().len(),
        forall|i: int| 0 <= i < r@.len() ==> (#[trigger] r@[i])@ == default_recv_paths()[i],
{
    let mut r: Vec<Vec<u8>> = Vec::new();
    let mut p: Vec<u8> = Vec::new();
    p.push('s' as u8);
    p.push('t' as u8);
    p.push('a' as u8);
    p.push('t' as u8);
    p.push('e' as u8);
    proof {
        assert(p@ =~= path_state());
    }
    r.push(p);
    let mut p: Vec<u8> = Vec::new();
    p.push('c' as u8);
    p.push('o' as u8);
    p.push('m' as u8);
    p.push('m' as u8);
    p.push('e' as u8);
    p.push('n' as u8);
    p.push('t' as u8);
    proof {
        assert(p@ =~= path_comment());
    }
    r.push(p);
    let mut p: Vec<u8> = Vec::new();
    p.push('c' as u8);
    p.push('u' as u8);
    p.push('r' as u8);
    p.push('r' as u8);
    p.push('e' as u8);
    p.push('n' as u8);
    p.push('c' as u8);
    p.push('y' as u8);
    proof {
        assert(p@ =~= path_currency());
    }
    r.push(p);
    let mut p: Vec<u8> = Vec::new();
    p.push('a' as u8);
    p.push('m' as u8);
    p.push('o' as u8);
    p.push('u' as u8);
    p.push('n' as u8);
    p.push('t' as u8);
    proof {
        assert(p@ =~= path_amount());
    }
    r.push(p);
    let mut p: Vec<u8> = Vec::new();
    p.push('r' as u8);
    p.push('e' as u8);
    p.push('c' as u8);
    p.push('i' as u8);
    p.push('p' as u8);
    p.push('i' as u8);
    p.push('e' as u8);
    p.push('n' as u8);
    p.push('t' as u8);
    p.push('.' as u8);
    p.push('a' as u8);
    p.push('c' as u8);
    p.push('c' as u8);
    p.push('o' as u8);
    p.push('u' as u8);
    p.push('n' as u8);
    p.push('t' as u8);
    proof {
        assert(p@ =~= path_recipient_account());
    }
    r.push(p);
    let mut p: Vec<u8> = Vec::new();
    p.push('r' as u8);
    p.push('e' as u8);
    p.push('c' as u8);
    p.push('i' as u8);
    p.push('p' as u8);
    p.push('i' as u8);
    p.push('e' as u8);
    p.push('n' as u8);
    p.push('t' as u8);
    p.push('.' as u8);
    p.push('u' as u8);
    p.push('s' as u8);
    p.push('e' as u8);
    p.push('r' as u8);
    p.push('n' as u8);
    p.push('a' as u8);
    p.push('m' as u8);
    p.push('e' as u8);
    proof {
        assert(p@ =~= path_recipient_username());
    }
    r.push(p);
    let mut p: Vec<u8> = Vec::new();
    p.push('r' as u8);
    p.push('e' as u8);
    p.push('c' as u8);
    p.push('i' as u8);
    p.push('p' as u8);
    p.push('i' as u8);
    p.push('e' as u8);
    p.push('n' as u8);
    p.push('t' as u8);
    p.push('.' as u8);
    p.push('c' as u8);
    p.push('o' as u8);
    p.push('d' as u8);
    p.push('e' as u8);
    proof {
        assert(p@ =~= path_recipient_code());
    }
    r.push(p);
    let mut p: Vec<u8> = Vec::new();
    p.push('b' as u8);
    p.push('e' as u8);
    p.push('n' as u8);
    p.push('e' as u8);
    p.push('f' as u8);
    p.push('i' as u8);
    p.push('c' as u8);
    p.push('i' as u8);
    p.push('a' as u8);
    p.push('r' as u8);
    p.push('y' as u8);
    p.push('.' as u8);
    p.push('a' as u8);
    p.push('c' as u8);
    p.push('c' as u8);
    p.push('o' as u8);
    p.push('u' as u8);
    p.push('n' as u8);
    p.push('t' as u8);
    proof {
        assert(p@ =~= path_beneficiary_account());
    }
    r.push(p);
    proof {
        assert forall|i: int| 0 <= i < r@.len() implies (#[trigger] r@[i])@
            == default_recv_paths()[i] by {
            assert(default_recv_paths().len() == 8);
        }
    }
    r
}

} // verus!
