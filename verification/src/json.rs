//! Recursive-descent parser for JSON-shaped response bodies.
//!
//! The grammar is defined once, as total spec functions over the byte
//! sequence (`sp_value`, `sp_members`, `sp_items`); the executable parser
//! returns exactly what those functions denote, which makes parsing
//! deterministic by construction and pins down precisely which inputs are
//! rejected. The tree is emitted flat, in document order: every value node
//! carries its nesting depth, its token span, and — when it is an object
//! member — the span of its key text, so that structure never has to be
//! rebuilt from pointers.

use vstd::prelude::*;
use crate::span::Span;

verus! {

/// The grammar production a node was built from.
#[derive(Clone, Copy, PartialEq, Eq, Structural, Debug)]
pub enum JsonKind {
    Object,
    Array,
    Text,
    Number,
    Bool,
    Null,
}

/// One value of the body tree, in document order. `span` is the full token
/// (for `Text` it includes the two quotes); `key_span` is the text between
/// the quotes of the member key, for values that are object members.
#[derive(Clone, Copy, PartialEq, Eq, Debug)]
pub struct JsonNode {
    pub kind: JsonKind,
    pub depth: usize,
    pub span: Span,
    pub key_span: Option<Span>,
}

pub open spec fn is_ws(b: u8) -> bool {
    b == 32 || b == 9 || b == 13 || b == 10
}

pub open spec fn is_digit(b: u8) -> bool {
    48 <= b <= 57
}

pub open spec fn is_hex(b: u8) -> bool {
    48 <= b <= 57 || 65 <= b <= 70 || 97 <= b <= 102
}

/// The single characters that may follow a backslash in a string.
pub open spec fn is_escape_code(b: u8) -> bool {
    b == '"' as u8 || b == '\\' as u8 || b == '/' as u8 || b == 'b' as u8 || b == 'f' as u8 || b
        == 'n' as u8 || b == 'r' as u8 || b == 't' as u8
}

/// First position at or after `i` holding a byte that is not whitespace.
pub open spec fn skip_ws(s: Seq<u8>, i: int) -> int
    decreases s.len() - i,
{
    if 0 <= i < s.len() && is_ws(s[i]) {
        skip_ws(s, i + 1)
    } else {
        i
    }
}

/// First position at or after `i` holding a non-digit.
pub open spec fn scan_digits(s: Seq<u8>, i: int) -> int
    decreases s.len() - i,
{
    if 0 <= i < s.len() && is_digit(s[i]) {
        scan_digits(s, i + 1)
    } else {
        i
    }
}

/// Position of the closing quote of string content starting at `i`
/// (the position just after the opening quote), honouring escapes.
pub open spec fn scan_string(s: Seq<u8>, i: int) -> Option<int>
    decreases s.len() - i,
{
    if !(0 <= i < s.len()) {
        None
    } else if s[i] == '"' as u8 {
        Some(i)
    } else if s[i] == '\\' as u8 {
        if i + 1 < s.len() && is_escape_code(s[i + 1]) {
            scan_string(s, i + 2)
        } else if i + 1 < s.len() && s[i + 1] == 'u' as u8 && i + 6 <= s.len() && is_hex(
            s[i + 2],
        ) && is_hex(s[i + 3]) && is_hex(s[i + 4]) && is_hex(s[i + 5]) {
            scan_string(s, i + 6)
        } else {
            None
        }
    } else if s[i] >= 32 {
        scan_string(s, i + 1)
    } else {
        None
    }
}

/// End of the fraction part beginning at `k`, if the grammar allows one here.
pub open spec fn frac_end(s: Seq<u8>, k: int) -> Option<int> {
    if 0 <= k < s.len() && s[k] == '.' as u8 {
        if k + 1 < s.len() && is_digit(s[k + 1]) {
            Some(scan_digits(s, k + 1))
        } else {
            None
        }
    } else {
        Some(k)
    }
}

/// End of the exponent part beginning at `k`, if the grammar allows one here.
pub open spec fn exp_end(s: Seq<u8>, k: int) -> Option<int> {
    if 0 <= k < s.len() && (s[k] == 'e' as u8 || s[k] == 'E' as u8) {
        let j = if k + 2 <= s.len() && (s[k + 1] == '+' as u8 || s[k + 1] == '-' as u8) {
            k + 2
        } else {
            k + 1
        };
        if j < s.len() && is_digit(s[j]) {
            Some(scan_digits(s, j))
        } else {
            None
        }
    } else {
        Some(k)
    }
}

/// End of a number token starting at `i`, or `None` if no number starts here.
pub open spec fn number_end(s: Seq<u8>, i: int) -> Option<int> {
    let j = if 0 <= i < s.len() && s[i] == '-' as u8 {
        i + 1
    } else {
        i
    };
    if j < s.len() && is_digit(s[j]) {
        match frac_end(s, scan_digits(s, j)) {
            Some(k) => exp_end(s, k),
            None => None,
        }
    } else {
        None
    }
}

pub open spec fn lit_at(s: Seq<u8>, i: int, lit: Seq<u8>) -> bool {
    i + lit.len() <= s.len() && s.subrange(i, i + lit.len()) == lit
}

pub open spec fn lit_true() -> Seq<u8> {
    seq!['t' as u8, 'r' as u8, 'u' as u8, 'e' as u8]
}

pub open spec fn lit_false() -> Seq<u8> {
    seq!['f' as u8, 'a' as u8, 'l' as u8, 's' as u8, 'e' as u8]
}

pub open spec fn lit_null() -> Seq<u8> {
    seq!['n' as u8, 'u' as u8, 'l' as u8, 'l' as u8]
}

/// One JSON value starting at `i`: the nodes of its subtree in document
/// order, and the position just after its token. `key` is the key span to
/// record on the root node of this subtree. `fuel` only bounds recursion
/// depth; the fixed top-level allowance in `sp_json` always suffices for
/// the buffer it is applied to.
pub open spec fn sp_value(s: Seq<u8>, i: int, depth: usize, key: Option<Span>, fuel: nat) -> Option<
    (Seq<JsonNode>, int),
>
    decreases fuel,
{
    if fuel == 0 {
        None
    } else if !(0 <= i < s.len()) {
        None
    } else if s[i] == '"' as u8 {
        match scan_string(s, i + 1) {
            Some(e) => Some(
                (
                    seq![
                        JsonNode {
                            kind: JsonKind::Text,
                            depth,
                            span: Span { start: i as usize, end: (e + 1) as usize },
                            key_span: key,
                        },
                    ],
                    e + 1,
                ),
            ),
            None => None,
        }
    } else if s[i] == '{' as u8 {
        let j = skip_ws(s, i + 1);
        if j < s.len() && s[j] == '}' as u8 {
            Some(
                (
                    seq![
                        JsonNode {
                            kind: JsonKind::Object,
                            depth,
                            span: Span { start: i as usize, end: (j + 1) as usize },
                            key_span: key,
                        },
                    ],
                    j + 1,
                ),
            )
        } else {
            match sp_members(s, j, (depth + 1) as usize, (fuel - 1) as nat) {
                Some((children, e)) => Some(
                    (
                        seq![
                            JsonNode {
                                kind: JsonKind::Object,
                                depth,
                                span: Span { start: i as usize, end: e as usize },
                                key_span: key,
                            },
                        ] + children,
                        e,
                    ),
                ),
                None => None,
            }
        }
    } else if s[i] == '[' as u8 {
        let j = skip_ws(s, i + 1);
        if j < s.len() && s[j] == ']' as u8 {
            Some(
                (
                    seq![
                        JsonNode {
                            kind: JsonKind::Array,
                            depth,
                            span: Span { start: i as usize, end: (j + 1) as usize },
                            key_span: key,
                        },
                    ],
                    j + 1,
                ),
            )
        } else {
            match sp_items(s, j, (depth + 1) as usize, (fuel - 1) as nat) {
                Some((children, e)) => Some(
                    (
                        seq![
                            JsonNode {
                                kind: JsonKind::Array,
                                depth,
                                span: Span { start: i as usize, end: e as usize },
                                key_span: key,
                            },
                        ] + children,
                        e,
                    ),
                ),
                None => None,
            }
        }
    } else if lit_at(s, i, lit_true()) {
        Some(
            (
                seq![
                    JsonNode {
                        kind: JsonKind::Bool,
                        depth,
                        span: Span { start: i as usize, end: (i + 4) as usize },
                        key_span: key,
                    },
                ],
                i + 4,
            ),
        )
    } else if lit_at(s, i, lit_false()) {
        Some(
            (
                seq![
                    JsonNode {
                        kind: JsonKind::Bool,
                        depth,
                        span: Span { start: i as usize, end: (i + 5) as usize },
                        key_span: key,
                    },
                ],
                i + 5,
            ),
        )
    } else if lit_at(s, i, lit_null()) {
        Some(
            (
                seq![
                    JsonNode {
                        kind: JsonKind::Null,
                        depth,
                        span: Span { start: i as usize, end: (i + 4) as usize },
                        key_span: key,
                    },
                ],
                i + 4,
            ),
        )
    } else {
        match number_end(s, i) {
            Some(e) => Some(
                (
                    seq![
                        JsonNode {
                            kind: JsonKind::Number,
                            depth,
                            span: Span { start: i as usize, end: e as usize },
                            key_span: key,
                        },
                    ],
                    e,
                ),
            ),
            None => None,
        }
    }
}

/// The members of a non-empty object: `i` is at the opening quote of the
/// next key; returns all member subtrees and the position after `}`.
pub open spec fn sp_members(s: Seq<u8>, i: int, depth: usize, fuel: nat) -> Option<
    (Seq<JsonNode>, int),
>
    decreases fuel,
{
    if fuel == 0 {
        None
    } else if !(0 <= i < s.len() && s[i] == '"' as u8) {
        None
    } else {
        match scan_string(s, i + 1) {
            None => None,
            Some(ke) => {
                let key_span = Span { start: (i + 1) as usize, end: ke as usize };
                let c = skip_ws(s, ke + 1);
                if !(c < s.len() && s[c] == ':' as u8) {
                    None
                } else {
                    match sp_value(s, skip_ws(s, c + 1), depth, Some(key_span), (fuel - 1) as nat) {
                        None => None,
                        Some((vnodes, ve)) => {
                            let t = skip_ws(s, ve);
                            if t < s.len() && s[t] == ',' as u8 {
                                match sp_members(s, skip_ws(s, t + 1), depth, (fuel - 1) as nat) {
                                    None => None,
                                    Some((rest, e)) => Some((vnodes + rest, e)),
                                }
                            } else if t < s.len() && s[t] == '}' as u8 {
                                Some((vnodes, t + 1))
                            } else {
                                None
                            }
                        },
                    }
                }
            },
        }
    }
}

/// The items of a non-empty array: `i` is at the first byte of the next
/// item; returns all item subtrees and the position after `]`.
pub open spec fn sp_items(s: Seq<u8>, i: int, depth: usize, fuel: nat) -> Option<
    (Seq<JsonNode>, int),
>
    decreases fuel,
{
    if fuel == 0 {
        None
    } else {
        match sp_value(s, i, depth, None, (fuel - 1) as nat) {
            None => None,
            Some((vnodes, ve)) => {
                let t = skip_ws(s, ve);
                if t < s.len() && s[t] == ',' as u8 {
                    match sp_items(s, skip_ws(s, t + 1), depth, (fuel - 1) as nat) {
                        None => None,
                        Some((rest, e)) => Some((vnodes + rest, e)),
                    }
                } else if t < s.len() && s[t] == ']' as u8 {
                    Some((vnodes, t + 1))
                } else {
                    None
                }
            },
        }
    }
}

/// Recursion allowance that can never run out on a buffer of this length:
/// every consumed unit accompanies at most two recursion steps.
pub open spec fn json_fuel(s: Seq<u8>) -> nat {
    (2 * s.len() + 4) as nat
}

/// A whole JSON body: optional surrounding whitespace, one value, end of
/// input. `lo` is where the body begins inside the message buffer.
pub open spec fn sp_json(s: Seq<u8>, lo: int) -> Option<Seq<JsonNode>> {
    match sp_value(s, skip_ws(s, lo), 0, None, json_fuel(s)) {
        Some((nodes, e)) => if skip_ws(s, e) == s.len() {
            Some(nodes)
        } else {
            None
        },
        None => None,
    }
}

/// Largest buffer the parser accepts; keeps the recursion allowance within
/// machine bounds.
pub open spec fn max_message_len() -> int {
    (usize::MAX - 4) / 2
}

/// The same bound, for callers that must test a buffer before parsing it.
pub fn max_message_capacity() -> (r: usize)
    ensures
        r as int == max_message_len(),
{
    (usize::MAX - 4) / 2
}

/// A node's spans are well-formed intervals inside a buffer of length
/// `limit`; a string token always has room for its two quotes.
pub open spec fn node_ok(n: JsonNode, limit: int) -> bool {
    &&& n.span.start < n.span.end <= limit
    &&& (n.kind is Text ==> n.span.start + 2 <= n.span.end)
    &&& (n.key_span matches Some(ks) ==> ks.start <= ks.end <= limit)
}

pub open spec fn nodes_ok(ns: Seq<JsonNode>, limit: int) -> bool {
    forall|m: int| 0 <= m < ns.len() ==> node_ok(#[trigger] ns[m], limit)
}

/// Offset fidelity for string tokens: the span of every `Text` node starts
/// and ends on the quote bytes of the token it was built from, so the
/// buffer text between them is exactly the string's content.
pub open spec fn text_nodes_quoted(ns: Seq<JsonNode>, s: Seq<u8>) -> bool {
    forall|m: int|
        0 <= m < ns.len() && (#[trigger] ns[m]).kind is Text ==> s[ns[m].span.start as int]
            == '"' as u8 && s[ns[m].span.end - 1] == '"' as u8
}

/// Every span of the subtree lies inside the window `[lo, hi)` of the
/// buffer that the subtree was parsed from.
pub open spec fn nodes_within(ns: Seq<JsonNode>, lo: int, hi: int) -> bool {
    forall|m: int| 0 <= m < ns.len() ==> lo <= (#[trigger] ns[m]).span.start && ns[m].span.end
        <= hi
}

/// Document order: token starts strictly increase, so sibling subtrees
/// never interleave and parents precede their children.
pub open spec fn nodes_ordered(ns: Seq<JsonNode>) -> bool {
    forall|m: int, m2: int|
        0 <= m < m2 < ns.len() ==> (#[trigger] ns[m]).span.start < (#[trigger] ns[m2]).span.start
}

pub proof fn lemma_skip_ws_bounds(s: Seq<u8>, i: int)
    requires
        0 <= i <= s.len(),
    ensures
        i <= skip_ws(s, i) <= s.len(),
    decreases s.len() - i,
{
    if i < s.len() && is_ws(s[i]) {
        lemma_skip_ws_bounds(s, i + 1);
    }
}

pub proof fn lemma_scan_digits_bounds(s: Seq<u8>, i: int)
    requires
        0 <= i <= s.len(),
    ensures
        i <= scan_digits(s, i) <= s.len(),
    decreases s.len() - i,
{
    if i < s.len() && is_digit(s[i]) {
        lemma_scan_digits_bounds(s, i + 1);
    }
}

pub proof fn lemma_scan_string_bounds(s: Seq<u8>, i: int)
    requires
        0 <= i,
    ensures
        scan_string(s, i) matches Some(e) ==> i <= e < s.len() && s[e] == '"' as u8,
    decreases s.len() - i,
{
    if 0 <= i < s.len() {
        if s[i] == '"' as u8 {
        } else if s[i] == '\\' as u8 {
            if i + 1 < s.len() && is_escape_code(s[i + 1]) {
                lemma_scan_string_bounds(s, i + 2);
            } else if i + 1 < s.len() && s[i + 1] == 'u' as u8 && i + 6 <= s.len() && is_hex(
                s[i + 2],
            ) && is_hex(s[i + 3]) && is_hex(s[i + 4]) && is_hex(s[i + 5]) {
                lemma_scan_string_bounds(s, i + 6);
            }
        } else if s[i] >= 32 {
            lemma_scan_string_bounds(s, i + 1);
        }
    }
}

pub proof fn lemma_number_end_bounds(s: Seq<u8>, i: int)
    requires
        0 <= i,
    ensures
        number_end(s, i) matches Some(e) ==> i < e <= s.len(),
{
    let j = if 0 <= i < s.len() && s[i] == '-' as u8 {
        i + 1
    } else {
        i
    };
    if j < s.len() && is_digit(s[j]) {
        lemma_scan_digits_bounds(s, j + 1);
        let k = scan_digits(s, j);
        assert(k == scan_digits(s, j + 1));
        if 0 <= k < s.len() && s[k] == '.' as u8 {
            if k + 1 < s.len() && is_digit(s[k + 1]) {
                lemma_scan_digits_bounds(s, k + 2);
                assert(scan_digits(s, k + 1) == scan_digits(s, k + 2));
            }
        }
        match frac_end(s, k) {
            Some(k2) => {
                if 0 <= k2 < s.len() && (s[k2] == 'e' as u8 || s[k2] == 'E' as u8) {
                    let j2 = if k2 + 2 <= s.len() && (s[k2 + 1] == '+' as u8 || s[k2 + 1]
                        == '-' as u8) {
                        k2 + 2
                    } else {
                        k2 + 1
                    };
                    if j2 < s.len() && is_digit(s[j2]) {
                        lemma_scan_digits_bounds(s, j2 + 1);
                        assert(scan_digits(s, j2) == scan_digits(s, j2 + 1));
                    }
                }
            },
            None => {},
        }
    }
}

/// Every subtree the grammar emits stays inside the buffer: its nodes'
/// spans and key spans are well-formed intervals below the buffer length,
/// and the end position moves strictly forward.
pub proof fn lemma_value_ok(s: Seq<u8>, i: int, depth: usize, key: Option<Span>, fuel: nat)
    requires
        s.len() <= usize::MAX,
        0 <= i,
        key matches Some(ks) ==> ks.start <= ks.end <= s.len(),
    ensures
        sp_value(s, i, depth, key, fuel) matches Some((ns, e)) ==> i < e <= s.len() && ns.len()
            >= 1 && nodes_ok(ns, s.len() as int) && text_nodes_quoted(ns, s) && nodes_within(
            ns,
            i,
            e,
        ) && nodes_ordered(ns) && ns[0].span.start == i,
    decreases fuel,
{
    if fuel == 0 || !(0 <= i < s.len()) {
    } else if s[i] == '"' as u8 {
        lemma_scan_string_bounds(s, i + 1);
    } else if s[i] == '{' as u8 {
        lemma_skip_ws_bounds(s, i + 1);
        let j = skip_ws(s, i + 1);
        if j < s.len() && s[j] == '}' as u8 {
        } else {
            lemma_members_ok(s, j, (depth + 1) as usize, (fuel - 1) as nat);
        }
    } else if s[i] == '[' as u8 {
        lemma_skip_ws_bounds(s, i + 1);
        let j = skip_ws(s, i + 1);
        if j < s.len() && s[j] == ']' as u8 {
        } else {
            lemma_items_ok(s, j, (depth + 1) as usize, (fuel - 1) as nat);
        }
    } else if lit_at(s, i, lit_true()) || lit_at(s, i, lit_false()) || lit_at(s, i, lit_null()) {
    } else {
        lemma_number_end_bounds(s, i);
    }
}

pub proof fn lemma_members_ok(s: Seq<u8>, i: int, depth: usize, fuel: nat)
    requires
        s.len() <= usize::MAX,
        0 <= i,
    ensures
        sp_members(s, i, depth, fuel) matches Some((ns, e)) ==> i < e <= s.len() && ns.len() >= 1
            && nodes_ok(ns, s.len() as int) && text_nodes_quoted(ns, s) && nodes_within(ns, i, e)
            && nodes_ordered(ns),
    decreases fuel,
{
    if fuel == 0 || !(0 <= i < s.len() && s[i] == '"' as u8) {
    } else {
        match scan_string(s, i + 1) {
            None => {},
            Some(ke) => {
                lemma_scan_string_bounds(s, i + 1);
                let key_span = Span { start: (i + 1) as usize, end: ke as usize };
                lemma_skip_ws_bounds(s, ke + 1);
                let c = skip_ws(s, ke + 1);
                if c < s.len() && s[c] == ':' as u8 {
                    lemma_skip_ws_bounds(s, c + 1);
                    let vstart = skip_ws(s, c + 1);
                    lemma_value_ok(s, vstart, depth, Some(key_span), (fuel - 1) as nat);
                    match sp_value(s, vstart, depth, Some(key_span), (fuel - 1) as nat) {
                        None => {},
                        Some((vnodes, ve)) => {
                            lemma_skip_ws_bounds(s, ve);
                            let t = skip_ws(s, ve);
                            if t < s.len() && s[t] == ',' as u8 {
                                lemma_skip_ws_bounds(s, t + 1);
                                lemma_members_ok(s, skip_ws(s, t + 1), depth, (fuel - 1) as nat);
                            }
                        },
                    }
                }
            },
        }
    }
}

pub proof fn lemma_items_ok(s: Seq<u8>, i: int, depth: usize, fuel: nat)
    requires
        s.len() <= usize::MAX,
        0 <= i,
    ensures
        sp_items(s, i, depth, fuel) matches Some((ns, e)) ==> i < e <= s.len() && ns.len() >= 1
            && nodes_ok(ns, s.len() as int) && text_nodes_quoted(ns, s) && nodes_within(ns, i, e)
            && nodes_ordered(ns),
    decreases fuel,
{
    if fuel == 0 {
    } else {
        lemma_value_ok(s, i, depth, None, (fuel - 1) as nat);
        match sp_value(s, i, depth, None, (fuel - 1) as nat) {
            None => {},
            Some((vnodes, ve)) => {
                lemma_skip_ws_bounds(s, ve);
                let t = skip_ws(s, ve);
                if t < s.len() && s[t] == ',' as u8 {
                    lemma_skip_ws_bounds(s, t + 1);
                    lemma_items_ok(s, skip_ws(s, t + 1), depth, (fuel - 1) as nat);
                }
            },
        }
    }
}

/// Offset fidelity for a whole body: every node of the tree points at a
/// well-formed byte interval of the buffer it was parsed from.
pub proof fn lemma_json_ok(s: Seq<u8>, lo: int)
    requires
        s.len() <= usize::MAX,
        0 <= lo <= s.len(),
    ensures
        sp_json(s, lo) matches Some(ns) ==> ns.len() >= 1 && nodes_ok(ns, s.len() as int)
            && text_nodes_quoted(ns, s) && nodes_within(ns, lo, s.len() as int) && nodes_ordered(
            ns,
        ),
{
    lemma_skip_ws_bounds(s, lo);
    lemma_value_ok(s, skip_ws(s, lo), 0, None, json_fuel(s));
}

#[verifier::loop_isolation(false)]
fn ws_end(s: &Vec<u8>, i: usize) -> (r: usize)
    requires
        i <= s.len(),
    ensures
        r as int == skip_ws(s@, i as int),
        i <= r <= s.len(),
{
    let mut j = i;
    while j < s.len() && (s[j] == 32 || s[j] == 9 || s[j] == 13 || s[j] == 10)
        invariant
            i <= j <= s.len(),
            skip_ws(s@, i as int) == skip_ws(s@, j as int),
        decreases s.len() - j,
    {
        j = j + 1;
    }
    j
}

#[verifier::loop_isolation(false)]
fn digits_end(s: &Vec<u8>, i: usize) -> (r: usize)
    requires
        i <= s.len(),
    ensures
        r as int == scan_digits(s@, i as int),
        i <= r <= s.len(),
{
    let mut j = i;
    while j < s.len() && 48 <= s[j] && s[j] <= 57
        invariant
            i <= j <= s.len(),
            scan_digits(s@, i as int) == scan_digits(s@, j as int),
        decreases s.len() - j,
    {
        j = j + 1;
    }
    j
}

#[verifier::loop_isolation(false)]
fn str_end(s: &Vec<u8>, i: usize) -> (r: Option<usize>)
    requires
        i <= s.len(),
    ensures
        match r {
            Some(e) => scan_string(s@, i as int) == Some(e as int) && i <= e < s.len(),
            None => scan_string(s@, i as int) is None,
        },
{
    let mut j = i;
    loop
        invariant
            i <= j <= s.len(),
            scan_string(s@, i as int) == scan_string(s@, j as int),
        decreases s.len() - j,
    {
        if j >= s.len() {
            return None;
        }
        let b = s[j];
        if b == '"' as u8 {
            return Some(j);
        } else if b == '\\' as u8 {
            if j + 1 < s.len() && (s[j + 1] == '"' as u8 || s[j + 1] == '\\' as u8 || s[j + 1]
                == '/' as u8 || s[j + 1] == 'b' as u8 || s[j + 1] == 'f' as u8 || s[j + 1]
                == 'n' as u8 || s[j + 1] == 'r' as u8 || s[j + 1] == 't' as u8) {
                j = j + 2;
            } else if j + 1 < s.len() && s[j + 1] == 'u' as u8 && s.len() - j >= 6 && is_hex_at(
                s,
                j + 2,
            ) && is_hex_at(s, j + 3) && is_hex_at(s, j + 4) && is_hex_at(s, j + 5) {
                j = j + 6;
            } else {
                return None;
            }
        } else if b >= 32 {
            j = j + 1;
        } else {
            return None;
        }
    }
}

fn is_hex_at(s: &Vec<u8>, i: usize) -> (r: bool)
    requires
        i < s.len(),
    ensures
        r == is_hex(s@[i as int]),
{
    let b = s[i];
    48 <= b && b <= 57 || 65 <= b && b <= 70 || 97 <= b && b <= 102
}

#[verifier::loop_isolation(false)]
fn num_end(s: &Vec<u8>, i: usize) -> (r: Option<usize>)
    requires
        i <= s.len(),
    ensures
        match r {
            Some(e) => number_end(s@, i as int) == Some(e as int) && i <= e <= s.len(),
            None => number_end(s@, i as int) is None,
        },
{
    let n = s.len();
    let mut j = i;
    if j < n && s[j] == '-' as u8 {
        j = j + 1;
    }
    if !(j < n && 48 <= s[j] && s[j] <= 57) {
        return None;
    }
    let k = digits_end(s, j);
    let k2: usize;
    if k < n && s[k] == '.' as u8 {
        if k + 1 < n && 48 <= s[k + 1] && s[k + 1] <= 57 {
            k2 = digits_end(s, k + 1);
        } else {
            return None;
        }
    } else {
        k2 = k;
    }
    if k2 < n && (s[k2] == 'e' as u8 || s[k2] == 'E' as u8) {
        let j2: usize = if k2 + 1 < n && (s[k2 + 1] == '+' as u8 || s[k2 + 1] == '-' as u8) {
            k2 + 2
        } else {
            k2 + 1
        };
        if j2 < n && 48 <= s[j2] && s[j2] <= 57 {
            Some(digits_end(s, j2))
        } else {
            None
        }
    } else {
        Some(k2)
    }
}

fn lit_true_at(s: &Vec<u8>, i: usize) -> (r: bool)
    requires
        i <= s.len(),
    ensures
        r == lit_at(s@, i as int, lit_true()),
{
    let r = s.len() - i >= 4 && s[i] == 't' as u8 && s[i + 1] == 'r' as u8 && s[i + 2] == 'u' as u8
        && s[i + 3] == 'e' as u8;
    proof {
        if r {
            assert(s@.subrange(i as int, i + 4) =~= lit_true());
        } else if i + 4 <= s.len() && s@.subrange(i as int, i + 4) == lit_true() {
            assert(s@[i as int] == lit_true()[0]);
            assert(s@[i + 1] == lit_true()[1]);
            assert(s@[i + 2] == lit_true()[2]);
            assert(s@[i + 3] == lit_true()[3]);
        }
    }
    r
}

fn lit_false_at(s: &Vec<u8>, i: usize) -> (r: bool)
    requires
        i <= s.len(),
    ensures
        r == lit_at(s@, i as int, lit_false()),
{
    let r = s.len() - i >= 5 && s[i] == 'f' as u8 && s[i + 1] == 'a' as u8 && s[i + 2] == 'l' as u8
        && s[i + 3] == 's' as u8 && s[i + 4] == 'e' as u8;
    proof {
        if r {
            assert(s@.subrange(i as int, i + 5) =~= lit_false());
        } else if i + 5 <= s.len() && s@.subrange(i as int, i + 5) == lit_false() {
            assert(s@[i as int] == lit_false()[0]);
            assert(s@[i + 1] == lit_false()[1]);
            assert(s@[i + 2] == lit_false()[2]);
            assert(s@[i + 3] == lit_false()[3]);
            assert(s@[i + 4] == lit_false()[4]);
        }
    }
    r
}

fn lit_null_at(s: &Vec<u8>, i: usize) -> (r: bool)
    requires
        i <= s.len(),
    ensures
        r == lit_at(s@, i as int, lit_null()),
{
    let r = s.len() - i >= 4 && s[i] == 'n' as u8 && s[i + 1] == 'u' as u8 && s[i + 2] == 'l' as u8
        && s[i + 3] == 'l' as u8;
    proof {
        if r {
            assert(s@.subrange(i as int, i + 4) =~= lit_null());
        } else if i + 4 <= s.len() && s@.subrange(i as int, i + 4) == lit_null() {
            assert(s@[i as int] == lit_null()[0]);
            assert(s@[i + 1] == lit_null()[1]);
            assert(s@[i + 2] == lit_null()[2]);
            assert(s@[i + 3] == lit_null()[3]);
        }
    }
    r
}

/// Builds the one-node subtree of a leaf value.
fn leaf(kind: JsonKind, depth: usize, start: usize, end: usize, key: Option<Span>) -> (r: Vec<
    JsonNode,
>)
    ensures
        r@ == seq![
            JsonNode { kind, depth, span: Span { start, end }, key_span: key },
        ],
{
    let mut v: Vec<JsonNode> = Vec::new();
    v.push(JsonNode { kind, depth, span: Span { start, end }, key_span: key });
    proof {
        assert(v@ =~= seq![JsonNode { kind, depth, span: Span { start, end }, key_span: key }]);
    }
    v
}

/// One JSON value starting at `i`; returns exactly the subtree and end
/// position that the grammar (`sp_value`) denotes there.
fn ex_value(s: &Vec<u8>, i: usize, depth: usize, key: Option<Span>, fuel: usize) -> (r: Option<
    (Vec<JsonNode>, usize),
>)
    requires
        i <= s.len(),
        depth + fuel <= usize::MAX,
    ensures
        match r {
            Some((v, e)) => sp_value(s@, i as int, depth, key, fuel as nat) == Some(
                (v@, e as int),
            ) && i <= e <= s.len(),
            None => sp_value(s@, i as int, depth, key, fuel as nat) is None,
        },
    decreases fuel,
{
    if fuel == 0 {
        return None;
    }
    if i >= s.len() {
        return None;
    }
    let b = s[i];
    if b == '"' as u8 {
        match str_end(s, i + 1) {
            Some(e) => Some((leaf(JsonKind::Text, depth, i, e + 1, key), e + 1)),
            None => None,
        }
    } else if b == '{' as u8 {
        let j = ws_end(s, i + 1);
        if j < s.len() && s[j] == '}' as u8 {
            Some((leaf(JsonKind::Object, depth, i, j + 1, key), j + 1))
        } else {
            match ex_members(s, j, depth + 1, fuel - 1) {
                Some((children, e)) => {
                    let ghost ch = children@;
                    let mut v = leaf(JsonKind::Object, depth, i, e, key);
                    let mut children2 = children;
                    v.append(&mut children2);
                    Some((v, e))
                },
                None => None,
            }
        }
    } else if b == '[' as u8 {
        let j = ws_end(s, i + 1);
        if j < s.len() && s[j] == ']' as u8 {
            Some((leaf(JsonKind::Array, depth, i, j + 1, key), j + 1))
        } else {
            match ex_items(s, j, depth + 1, fuel - 1) {
                Some((children, e)) => {
                    let ghost ch = children@;
                    let mut v = leaf(JsonKind::Array, depth, i, e, key);
                    let mut children2 = children;
                    v.append(&mut children2);
                    Some((v, e))
                },
                None => None,
            }
        }
    } else if lit_true_at(s, i) {
        Some((leaf(JsonKind::Bool, depth, i, i + 4, key), i + 4))
    } else if lit_false_at(s, i) {
        Some((leaf(JsonKind::Bool, depth, i, i + 5, key), i + 5))
    } else if lit_null_at(s, i) {
        Some((leaf(JsonKind::Null, depth, i, i + 4, key), i + 4))
    } else {
        match num_end(s, i) {
            Some(e) => Some((leaf(JsonKind::Number, depth, i, e, key), e)),
            None => None,
        }
    }
}

/// The members of a non-empty object; mirrors `sp_members`.
fn ex_members(s: &Vec<u8>, i: usize, depth: usize, fuel: usize) -> (r: Option<
    (Vec<JsonNode>, usize),
>)
    requires
        i <= s.len(),
        depth + fuel <= usize::MAX,
    ensures
        match r {
            Some((v, e)) => sp_members(s@, i as int, depth, fuel as nat) == Some((v@, e as int))
                && i <= e <= s.len(),
            None => sp_members(s@, i as int, depth, fuel as nat) is None,
        },
    decreases fuel,
{
    if fuel == 0 {
        return None;
    }
    if !(i < s.len() && s[i] == '"' as u8) {
        return None;
    }
    let ke = match str_end(s, i + 1) {
        Some(ke) => ke,
        None => {
            return None;
        },
    };
    let key_span = Span { start: i + 1, end: ke };
    let c = ws_end(s, ke + 1);
    if !(c < s.len() && s[c] == ':' as u8) {
        return None;
    }
    let vstart = ws_end(s, c + 1);
    let (vnodes, ve) = match ex_value(s, vstart, depth, Some(key_span), fuel - 1) {
        Some(x) => x,
        None => {
            return None;
        },
    };
    let t = ws_end(s, ve);
    if t < s.len() && s[t] == ',' as u8 {
        let nx = ws_end(s, t + 1);
        match ex_members(s, nx, depth, fuel - 1) {
            Some((rest, e)) => {
                let mut v = vnodes;
                let mut rest2 = rest;
                v.append(&mut rest2);
                Some((v, e))
            },
            None => None,
        }
    } else if t < s.len() && s[t] == '}' as u8 {
        Some((vnodes, t + 1))
    } else {
        None
    }
}

/// The items of a non-empty array; mirrors `sp_items`.
fn ex_items(s: &Vec<u8>, i: usize, depth: usize, fuel: usize) -> (r: Option<(Vec<JsonNode>, usize)>)
    requires
        i <= s.len(),
        depth + fuel <= usize::MAX,
    ensures
        match r {
            Some((v, e)) => sp_items(s@, i as int, depth, fuel as nat) == Some((v@, e as int)) && i
                <= e <= s.len(),
            None => sp_items(s@, i as int, depth, fuel as nat) is None,
        },
    decreases fuel,
{
    if fuel == 0 {
        return None;
    }
    let (vnodes, ve) = match ex_value(s, i, depth, None, fuel - 1) {
        Some(x) => x,
        None => {
            return None;
        },
    };
    let t = ws_end(s, ve);
    if t < s.len() && s[t] == ',' as u8 {
        let nx = ws_end(s, t + 1);
        match ex_items(s, nx, depth, fuel - 1) {
            Some((rest, e)) => {
                let mut v = vnodes;
                let mut rest2 = rest;
                v.append(&mut rest2);
                Some((v, e))
            },
            None => None,
        }
    } else if t < s.len() && s[t] == ']' as u8 {
        Some((vnodes, t + 1))
    } else {
        None
    }
}

/// Parse the JSON body that starts at `lo` and must reach the end of the
/// buffer; returns exactly the flat tree that `sp_json` denotes.
pub fn parse_json_from(s: &Vec<u8>, lo: usize) -> (r: Option<Vec<JsonNode>>)
    requires
        lo <= s.len(),
        s.len() <= max_message_len(),
    ensures
        match r {
            Some(v) => sp_json(s@, lo as int) == Some(v@),
            None => sp_json(s@, lo as int) is None,
        },
{
    let fuel = 2 * s.len() + 4;
    let j = ws_end(s, lo);
    match ex_value(s, j, 0, None, fuel) {
        Some((nodes, e)) => {
            let t = ws_end(s, e);
            if t == s.len() {
                Some(nodes)
            } else {
                None
            }
        },
        None => None,
    }
}

} // verus!
