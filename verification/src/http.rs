//! Request and response grammars, and the typed `Document` facade.
//!
//! Like the body grammar, the message grammars are total spec functions
//! over the raw bytes (`sp_request`, `sp_response`); the executable parsers
//! return exactly what they denote. Parsing either succeeds on the whole
//! buffer or fails with a structured error naming the failing rule and
//! position — a partial or best-effort tree is never produced, because an
//! ambiguous parse must never drive a disclosure decision.

use vstd::prelude::*;
use crate::span::Span;
use crate::errors::{ParseError, Rule};
use crate::json::{JsonNode, is_digit, sp_json, max_message_len, parse_json_from};

verus! {

/// One header line: the span of its name and the span of its value with
/// surrounding optional whitespace removed.
#[derive(Clone, Copy, PartialEq, Eq, Structural, Debug)]
pub struct HeaderNode {
    pub name_span: Span,
    pub value_span: Span,
}

/// Header-name bytes (the HTTP token characters).
pub open spec fn is_tchar(b: u8) -> bool {
    (97 <= b <= 122) || (65 <= b <= 90) || (48 <= b <= 57) || b == '!' as u8 || b == '#' as u8 || b
        == '$' as u8 || b == '%' as u8 || b == '&' as u8 || b == '\'' as u8 || b == '*' as u8 || b
        == '+' as u8 || b == '-' as u8 || b == '.' as u8 || b == '^' as u8 || b == '_' as u8 || b
        == '`' as u8 || b == '|' as u8 || b == '~' as u8
}

/// Request-target bytes: any visible ASCII character.
pub open spec fn is_vchar(b: u8) -> bool {
    33 <= b <= 126
}

/// Optional whitespace around a header value.
pub open spec fn is_ows(b: u8) -> bool {
    b == 32 || b == 9
}

/// Header-value bytes: anything up to the line break.
pub open spec fn is_field_byte(b: u8) -> bool {
    b != 13 && b != 10
}

pub open spec fn scan_tchar(s: Seq<u8>, i: int) -> int
    decreases s.len() - i,
{
    if 0 <= i < s.len() && is_tchar(s[i]) {
        scan_tchar(s, i + 1)
    } else {
        i
    }
}

pub open spec fn scan_vchar(s: Seq<u8>, i: int) -> int
    decreases s.len() - i,
{
    if 0 <= i < s.len() && is_vchar(s[i]) {
        scan_vchar(s, i + 1)
    } else {
        i
    }
}

pub open spec fn skip_ows(s: Seq<u8>, i: int) -> int
    decreases s.len() - i,
{
    if 0 <= i < s.len() && is_ows(s[i]) {
        skip_ows(s, i + 1)
    } else {
        i
    }
}

pub open spec fn scan_field(s: Seq<u8>, i: int) -> int
    decreases s.len() - i,
{
    if 0 <= i < s.len() && is_field_byte(s[i]) {
        scan_field(s, i + 1)
    } else {
        i
    }
}

/// Position of the value's end after dropping trailing optional whitespace.
pub open spec fn trim_ows(s: Seq<u8>, lo: int, hi: int) -> int
    decreases hi - lo,
{
    if 0 <= lo < hi <= s.len() && is_ows(s[hi - 1]) {
        trim_ows(s, lo, hi - 1)
    } else {
        hi
    }
}

pub open spec fn crlf_at(s: Seq<u8>, i: int) -> bool {
    0 <= i && i + 2 <= s.len() && s[i] == 13 && s[i + 1] == 10
}

/// The literal `HTTP/` followed by one digit, a dot, and one digit.
pub open spec fn http_version_at(s: Seq<u8>, v: int) -> bool {
    &&& 0 <= v
    &&& v + 8 <= s.len()
    &&& s[v] == 'H' as u8
    &&& s[v + 1] == 'T' as u8
    &&& s[v + 2] == 'T' as u8
    &&& s[v + 3] == 'P' as u8
    &&& s[v + 4] == '/' as u8
    &&& is_digit(s[v + 5])
    &&& s[v + 6] == '.' as u8
    &&& is_digit(s[v + 7])
}

/// Request line `METHOD SP target SP HTTP/d.d CRLF`; the position just
/// after the CRLF, where the headers start.
pub open spec fn sp_request_line(s: Seq<u8>) -> Option<int> {
    let me = scan_tchar(s, 0);
    if !(me > 0) {
        None
    } else if !(me < s.len() && s[me] == ' ' as u8) {
        None
    } else {
        let te = scan_vchar(s, me + 1);
        if !(te > me + 1) {
            None
        } else if !(te < s.len() && s[te] == ' ' as u8) {
            None
        } else if !http_version_at(s, te + 1) {
            None
        } else if !crlf_at(s, te + 9) {
            None
        } else {
            Some(te + 11)
        }
    }
}

/// Status line `HTTP/d.d SP 3DIGIT [SP reason] CRLF`; the span of the
/// status code and the position just after the CRLF.
pub open spec fn sp_status_line(s: Seq<u8>) -> Option<(Span, int)> {
    if !http_version_at(s, 0) {
        None
    } else if !(8 < s.len() && s[8] == ' ' as u8) {
        None
    } else if !(12 <= s.len() && is_digit(s[9]) && is_digit(s[10]) && is_digit(s[11])) {
        None
    } else {
        let code = Span { start: 9, end: 12 };
        if crlf_at(s, 12) {
            Some((code, 14))
        } else if 12 < s.len() && s[12] == ' ' as u8 {
            let re = scan_field(s, 13);
            if crlf_at(s, re) {
                Some((code, re + 2))
            } else {
                None
            }
        } else {
            None
        }
    }
}

pub open spec fn headers_fuel(s: Seq<u8>) -> nat {
    (s.len() + 1) as nat
}

/// The header block starting at `i`: header lines in the order they
/// appear (duplicates each kept as a separate node) up to the empty line, and the
/// position just after that empty line.
pub open spec fn sp_headers(s: Seq<u8>, i: int, fuel: nat) -> Option<(Seq<HeaderNode>, int)>
    decreases fuel,
{
    if fuel == 0 {
        None
    } else if crlf_at(s, i) {
        Some((seq![], i + 2))
    } else {
        let ne = scan_tchar(s, i);
        if !(ne > i) {
            None
        } else if !(ne < s.len() && s[ne] == ':' as u8) {
            None
        } else {
            let vs = skip_ows(s, ne + 1);
            let vraw = scan_field(s, vs);
            let vtrim = trim_ows(s, vs, vraw);
            if !crlf_at(s, vraw) {
                None
            } else {
                match sp_headers(s, vraw + 2, (fuel - 1) as nat) {
                    Some((rest, e)) => Some(
                        (
                            seq![
                                HeaderNode {
                                    name_span: Span { start: i as usize, end: ne as usize },
                                    value_span: Span { start: vs as usize, end: vtrim as usize },
                                },
                            ] + rest,
                            e,
                        ),
                    ),
                    None => None,
                }
            }
        }
    }
}

/// Whether a parsed document came from the sent request or the received
/// response.
#[derive(Clone, Copy, PartialEq, Eq, Structural, Debug)]
pub enum DocKind {
    Request,
    Response,
}

/// The spec-level content of a parsed document.
pub struct DocModel {
    /// The whole start line, excluding its CRLF.
    pub start_span: Span,
    /// The three status-code digits, for responses.
    pub code_span: Option<Span>,
    pub headers: Seq<HeaderNode>,
    /// The raw body bytes, when the message has a body.
    pub body_span: Option<Span>,
    /// The body tree in document order; empty for requests and bodyless
    /// responses.
    pub body: Seq<JsonNode>,
}

/// A whole request: request line, headers, and an opaque optional body.
pub open spec fn sp_request(s: Seq<u8>) -> Option<DocModel> {
    match sp_request_line(s) {
        None => None,
        Some(hstart) => match sp_headers(s, hstart, headers_fuel(s)) {
            None => None,
            Some((hs, hend)) => Some(
                DocModel {
                    start_span: Span { start: 0, end: (hstart - 2) as usize },
                    code_span: None,
                    headers: hs,
                    body_span: if hend < s.len() {
                        Some(Span { start: hend as usize, end: s.len() as usize })
                    } else {
                        None
                    },
                    body: seq![],
                },
            ),
        },
    }
}

/// A whole response: status line, headers, and — when any body bytes are
/// present — a body that must be JSON-shaped in its entirety.
pub open spec fn sp_response(s: Seq<u8>) -> Option<DocModel> {
    match sp_status_line(s) {
        None => None,
        Some((code, hstart)) => match sp_headers(s, hstart, headers_fuel(s)) {
            None => None,
            Some((hs, hend)) => if hend == s.len() {
                Some(
                    DocModel {
                        start_span: Span { start: 0, end: (hstart - 2) as usize },
                        code_span: Some(code),
                        headers: hs,
                        body_span: None,
                        body: seq![],
                    },
                )
            } else {
                match sp_json(s, hend) {
                    None => None,
                    Some(nodes) => Some(
                        DocModel {
                            start_span: Span { start: 0, end: (hstart - 2) as usize },
                            code_span: Some(code),
                            headers: hs,
                            body_span: Some(Span { start: hend as usize, end: s.len() as usize }),
                            body: nodes,
                        },
                    ),
                }
            },
        },
    }
}

/// A parsed transcript: a read-only facade over the raw bytes it owns,
/// exposing the ordered headers and, for responses, the body tree.
#[derive(Debug, PartialEq, Eq)]
pub struct Document {
    pub buf: Vec<u8>,
    pub kind: DocKind,
    pub start_span: Span,
    pub code_span: Option<Span>,
    pub headers: Vec<HeaderNode>,
    pub body_span: Option<Span>,
    pub body: Vec<JsonNode>,
}

impl Document {
    pub open spec fn model(&self) -> DocModel {
        DocModel {
            start_span: self.start_span,
            code_span: self.code_span,
            headers: self.headers@,
            body_span: self.body_span,
            body: self.body@,
        }
    }

    /// A document is well-formed exactly when it is the parse of its own
    /// buffer under its grammar.
    pub open spec fn wf(&self) -> bool {
        match self.kind {
            DocKind::Request => sp_request(self.buf@) == Some(self.model()),
            DocKind::Response => sp_response(self.buf@) == Some(self.model()),
        }
    }
}

/// A header's spans are well-formed intervals inside a buffer of length
/// `limit`, and its name is never empty.
pub open spec fn header_ok(h: HeaderNode, limit: int) -> bool {
    &&& h.name_span.start < h.name_span.end <= limit
    &&& h.value_span.start <= h.value_span.end <= limit
}

pub open spec fn headers_ok(hs: Seq<HeaderNode>, limit: int) -> bool {
    forall|m: int| 0 <= m < hs.len() ==> header_ok(#[trigger] hs[m], limit)
}

/// Offset fidelity for header tokens: the name span holds nothing but
/// token characters, and the value span never crosses its line break.
pub open spec fn header_text_ok(h: HeaderNode, s: Seq<u8>) -> bool {
    &&& forall|q: int| h.name_span.start <= q < h.name_span.end ==> is_tchar(#[trigger] s[q])
    &&& forall|q: int| h.value_span.start <= q < h.value_span.end ==> is_field_byte(
        #[trigger] s[q],
    )
}

pub open spec fn headers_text_ok(hs: Seq<HeaderNode>, s: Seq<u8>) -> bool {
    forall|m: int| 0 <= m < hs.len() ==> header_text_ok(#[trigger] hs[m], s)
}

proof fn lemma_scan_tchar_chars(s: Seq<u8>, i: int)
    requires
        0 <= i <= s.len(),
    ensures
        forall|q: int| i <= q < scan_tchar(s, i) ==> is_tchar(#[trigger] s[q]),
    decreases s.len() - i,
{
    if i < s.len() && is_tchar(s[i]) {
        lemma_scan_tchar_chars(s, i + 1);
        lemma_scan_tchar_bounds(s, i + 1);
    }
}

proof fn lemma_scan_field_chars(s: Seq<u8>, i: int)
    requires
        0 <= i <= s.len(),
    ensures
        forall|q: int| i <= q < scan_field(s, i) ==> is_field_byte(#[trigger] s[q]),
    decreases s.len() - i,
{
    if i < s.len() && is_field_byte(s[i]) {
        lemma_scan_field_chars(s, i + 1);
        lemma_scan_field_bounds(s, i + 1);
    }
}

proof fn lemma_scan_tchar_bounds(s: Seq<u8>, i: int)
    requires
        0 <= i <= s.len(),
    ensures
        i <= scan_tchar(s, i) <= s.len(),
    decreases s.len() - i,
{
    if i < s.len() && is_tchar(s[i]) {
        lemma_scan_tchar_bounds(s, i + 1);
    }
}

proof fn lemma_skip_ows_bounds(s: Seq<u8>, i: int)
    requires
        0 <= i <= s.len(),
    ensures
        i <= skip_ows(s, i) <= s.len(),
    decreases s.len() - i,
{
    if i < s.len() && is_ows(s[i]) {
        lemma_skip_ows_bounds(s, i + 1);
    }
}

proof fn lemma_scan_field_bounds(s: Seq<u8>, i: int)
    requires
        0 <= i <= s.len(),
    ensures
        i <= scan_field(s, i) <= s.len(),
    decreases s.len() - i,
{
    if i < s.len() && is_field_byte(s[i]) {
        lemma_scan_field_bounds(s, i + 1);
    }
}

proof fn lemma_trim_ows_bounds(s: Seq<u8>, lo: int, hi: int)
    requires
        0 <= lo <= hi <= s.len(),
    ensures
        lo <= trim_ows(s, lo, hi) <= hi,
    decreases hi - lo,
{
    if lo < hi && is_ows(s[hi - 1]) {
        lemma_trim_ows_bounds(s, lo, hi - 1);
    }
}

/// Every header block the grammar emits stays inside the buffer.
pub proof fn lemma_headers_ok(s: Seq<u8>, i: int, fuel: nat)
    requires
        0 <= i,
        s.len() <= usize::MAX,
    ensures
        sp_headers(s, i, fuel) matches Some((hs, e)) ==> i < e <= s.len() && headers_ok(
            hs,
            s.len() as int,
        ) && headers_text_ok(hs, s),
    decreases fuel,
{
    if fuel == 0 || crlf_at(s, i) {
    } else {
        let ne = scan_tchar(s, i);
        if ne > i && ne < s.len() && s[ne] == ':' as u8 {
            lemma_scan_tchar_bounds(s, i);
            lemma_scan_tchar_chars(s, i);
            lemma_skip_ows_bounds(s, ne + 1);
            let vs = skip_ows(s, ne + 1);
            lemma_scan_field_bounds(s, vs);
            lemma_scan_field_chars(s, vs);
            let vraw = scan_field(s, vs);
            lemma_trim_ows_bounds(s, vs, vraw);
            if crlf_at(s, vraw) {
                lemma_headers_ok(s, vraw + 2, (fuel - 1) as nat);
            }
        }
    }
}

/// Offset fidelity for a parsed request: all header spans are well-formed
/// intervals of the source buffer.
pub proof fn lemma_request_ok(s: Seq<u8>)
    requires
        s.len() <= usize::MAX,
    ensures
        sp_request(s) matches Some(m) ==> headers_ok(m.headers, s.len() as int)
            && headers_text_ok(m.headers, s) && m.body.len() == 0,
{
    match sp_request_line(s) {
        None => {},
        Some(hstart) => {
            lemma_headers_ok(s, hstart, headers_fuel(s));
        },
    }
}

/// Offset fidelity for a parsed response: all header spans and all body
/// node spans are well-formed intervals of the source buffer.
pub proof fn lemma_response_ok(s: Seq<u8>)
    requires
        s.len() <= usize::MAX,
    ensures
        sp_response(s) matches Some(m) ==> headers_ok(m.headers, s.len() as int)
            && headers_text_ok(m.headers, s)
            && crate::json::nodes_ok(m.body, s.len() as int) && crate::json::text_nodes_quoted(
            m.body,
            s,
        ) && crate::json::nodes_within(m.body, 0, s.len() as int) && crate::json::nodes_ordered(
            m.body,
        ),
{
    match sp_status_line(s) {
        None => {},
        Some((code, hstart)) => {
            lemma_headers_ok(s, hstart, headers_fuel(s));
            match sp_headers(s, hstart, headers_fuel(s)) {
                None => {},
                Some((hs, hend)) => {
                    if hend < s.len() {
                        crate::json::lemma_json_ok(s, hend);
                    }
                },
            }
        },
    }
}

fn is_tchar_at(s: &Vec<u8>, i: usize) -> (r: bool)
    requires
        i < s.len(),
    ensures
        r == is_tchar(s@[i as int]),
{
    let b = s[i];
    (97 <= b && b <= 122) || (65 <= b && b <= 90) || (48 <= b && b <= 57) || b == '!' as u8 || b
        == '#' as u8 || b == '$' as u8 || b == '%' as u8 || b == '&' as u8 || b == '\'' as u8 || b
        == '*' as u8 || b == '+' as u8 || b == '-' as u8 || b == '.' as u8 || b == '^' as u8 || b
        == '_' as u8 || b == '`' as u8 || b == '|' as u8 || b == '~' as u8
}

#[verifier::loop_isolation(false)]
fn tchar_end(s: &Vec<u8>, i: usize) -> (r: usize)
    requires
        i <= s.len(),
    ensures
        r as int == scan_tchar(s@, i as int),
        i <= r <= s.len(),
{
    let mut j = i;
    while j < s.len() && is_tchar_at(s, j)
        invariant
            i <= j <= s.len(),
            scan_tchar(s@, i as int) == scan_tchar(s@, j as int),
        decreases s.len() - j,
    {
        j = j + 1;
    }
    j
}

#[verifier::loop_isolation(false)]
fn vchar_end(s: &Vec<u8>, i: usize) -> (r: usize)
    requires
        i <= s.len(),
    ensures
        r as int == scan_vchar(s@, i as int),
        i <= r <= s.len(),
{
    let mut j = i;
    while j < s.len() && 33 <= s[j] && s[j] <= 126
        invariant
            i <= j <= s.len(),
            scan_vchar(s@, i as int) == scan_vchar(s@, j as int),
        decreases s.len() - j,
    {
        j = j + 1;
    }
    j
}

#[verifier::loop_isolation(false)]
fn ows_end(s: &Vec<u8>, i: usize) -> (r: usize)
    requires
        i <= s.len(),
    ensures
        r as int == skip_ows(s@, i as int),
        i <= r <= s.len(),
{
    let mut j = i;
    while j < s.len() && (s[j] == 32 || s[j] == 9)
        invariant
            i <= j <= s.len(),
            skip_ows(s@, i as int) == skip_ows(s@, j as int),
        decreases s.len() - j,
    {
        j = j + 1;
    }
    j
}

#[verifier::loop_isolation(false)]
fn field_end(s: &Vec<u8>, i: usize) -> (r: usize)
    requires
        i <= s.len(),
    ensures
        r as int == scan_field(s@, i as int),
        i <= r <= s.len(),
{
    let mut j = i;
    while j < s.len() && s[j] != 13 && s[j] != 10
        invariant
            i <= j <= s.len(),
            scan_field(s@, i as int) == scan_field(s@, j as int),
        decreases s.len() - j,
    {
        j = j + 1;
    }
    j
}

#[verifier::loop_isolation(false)]
fn trim_ows_end(s: &Vec<u8>, lo: usize, hi: usize) -> (r: usize)
    requires
        lo <= hi <= s.len(),
    ensures
        r as int == trim_ows(s@, lo as int, hi as int),
        lo <= r <= hi,
{
    let mut h = hi;
    while h > lo && (s[h - 1] == 32 || s[h - 1] == 9)
        invariant
            lo <= h <= hi,
            trim_ows(s@, lo as int, hi as int) == trim_ows(s@, lo as int, h as int),
        decreases h,
    {
        h = h - 1;
    }
    h
}

fn crlf_at_ex(s: &Vec<u8>, i: usize) -> (r: bool)
    requires
        i <= s.len(),
    ensures
        r == crlf_at(s@, i as int),
{
    s.len() - i >= 2 && s[i] == 13 && s[i + 1] == 10
}

fn version_at_ex(s: &Vec<u8>, v: usize) -> (r: bool)
    requires
        v <= s.len(),
    ensures
        r == http_version_at(s@, v as int),
{
    s.len() - v >= 8 && s[v] == 'H' as u8 && s[v + 1] == 'T' as u8 && s[v + 2] == 'T' as u8 && s[v
        + 3] == 'P' as u8 && s[v + 4] == '/' as u8 && 48 <= s[v + 5] && s[v + 5] <= 57 && s[v + 6]
        == '.' as u8 && 48 <= s[v + 7] && s[v + 7] <= 57
}

/// The header block starting at `i`; mirrors `sp_headers`.
fn ex_headers(s: &Vec<u8>, i: usize, fuel: usize) -> (r: Result<(Vec<HeaderNode>, usize), ParseError
>)
    requires
        i <= s.len(),
    ensures
        match r {
            Ok((v, e)) => sp_headers(s@, i as int, fuel as nat) == Some((v@, e as int)) && i <= e
                <= s.len(),
            Err(pe) => sp_headers(s@, i as int, fuel as nat) is None && pe.pos <= s.len(),
        },
    decreases fuel,
{
    if fuel == 0 {
        return Err(ParseError { rule: Rule::Header, pos: i });
    }
    if crlf_at_ex(s, i) {
        let v: Vec<HeaderNode> = Vec::new();
        proof {
            assert(v@ =~= Seq::<HeaderNode>::empty());
        }
        return Ok((v, i + 2));
    }
    let ne = tchar_end(s, i);
    if ne == i || !(ne < s.len() && s[ne] == ':' as u8) {
        return Err(ParseError { rule: Rule::Header, pos: ne });
    }
    let vs = ows_end(s, ne + 1);
    let vraw = field_end(s, vs);
    let vtrim = trim_ows_end(s, vs, vraw);
    if !crlf_at_ex(s, vraw) {
        return Err(ParseError { rule: Rule::Header, pos: vraw });
    }
    let node = HeaderNode {
        name_span: Span { start: i, end: ne },
        value_span: Span { start: vs, end: vtrim },
    };
    match ex_headers(s, vraw + 2, fuel - 1) {
        Ok((rest, e)) => {
            let mut v: Vec<HeaderNode> = Vec::new();
            v.push(node);
            let mut rest2 = rest;
            v.append(&mut rest2);
            Ok((v, e))
        },
        Err(pe) => Err(pe),
    }
}

/// Parse the sent transcript as an HTTP request. Succeeds, returning the
/// typed document over its own buffer, exactly when the request grammar
/// matches the whole buffer.
pub fn parse_request(buf: Vec<u8>) -> (r: Result<Document, ParseError>)
    requires
        buf@.len() <= max_message_len(),
    ensures
        match r {
            Ok(d) => {
                &&& sp_request(buf@) == Some(d.model())
                &&& d.kind == DocKind::Request
                &&& d.buf@ == buf@
                &&& d.wf()
            },
            Err(pe) => sp_request(buf@) is None && pe.pos <= buf@.len(),
        },
{
    let me = tchar_end(&buf, 0);
    if me == 0 || !(me < buf.len() && buf[me] == ' ' as u8) {
        return Err(ParseError { rule: Rule::RequestLine, pos: me });
    }
    let te = vchar_end(&buf, me + 1);
    if te == me + 1 || !(te < buf.len() && buf[te] == ' ' as u8) {
        return Err(ParseError { rule: Rule::RequestLine, pos: te });
    }
    if !version_at_ex(&buf, te + 1) {
        return Err(ParseError { rule: Rule::RequestLine, pos: te });
    }
    if !crlf_at_ex(&buf, te + 9) {
        return Err(ParseError { rule: Rule::RequestLine, pos: te });
    }
    let hstart = te + 11;
    match ex_headers(&buf, hstart, buf.len() + 1) {
        Err(pe) => Err(pe),
        Ok((hs, hend)) => {
            let blen = buf.len();
            let d = Document {
                buf,
                kind: DocKind::Request,
                start_span: Span { start: 0, end: hstart - 2 },
                code_span: None,
                headers: hs,
                body_span: if hend < blen {
                    Some(Span { start: hend, end: blen })
                } else {
                    None
                },
                body: Vec::new(),
            };
            proof {
                assert(d.body@ =~= Seq::<JsonNode>::empty());
            }
            Ok(d)
        },
    }
}

/// Parse the received transcript as an HTTP response. Succeeds exactly when
/// the response grammar matches the whole buffer; any non-empty body must
/// be JSON-shaped in its entirety, or the parse fails — there is no
/// best-effort tree.
pub fn parse_response(buf: Vec<u8>) -> (r: Result<Document, ParseError>)
    requires
        buf@.len() <= max_message_len(),
    ensures
        match r {
            Ok(d) => {
                &&& sp_response(buf@) == Some(d.model())
                &&& d.kind == DocKind::Response
                &&& d.buf@ == buf@
                &&& d.wf()
            },
            Err(pe) => sp_response(buf@) is None && pe.pos <= buf@.len(),
        },
{
    if !version_at_ex(&buf, 0) {
        return Err(ParseError { rule: Rule::StatusLine, pos: 0 });
    }
    if !(8 < buf.len() && buf[8] == ' ' as u8) {
        return Err(ParseError { rule: Rule::StatusLine, pos: 8 });
    }
    if !(12 <= buf.len() && 48 <= buf[9] && buf[9] <= 57 && 48 <= buf[10] && buf[10] <= 57 && 48
        <= buf[11] && buf[11] <= 57) {
        return Err(ParseError { rule: Rule::StatusLine, pos: 9 });
    }
    let code = Span { start: 9, end: 12 };
    let hstart: usize;
    if crlf_at_ex(&buf, 12) {
        hstart = 14;
    } else if 12 < buf.len() && buf[12] == ' ' as u8 {
        let re = field_end(&buf, 13);
        if !crlf_at_ex(&buf, re) {
            return Err(ParseError { rule: Rule::StatusLine, pos: re });
        }
        hstart = re + 2;
    } else {
        return Err(ParseError { rule: Rule::StatusLine, pos: 12 });
    }
    match ex_headers(&buf, hstart, buf.len() + 1) {
        Err(pe) => Err(pe),
        Ok((hs, hend)) => {
            let blen = buf.len();
            if hend == blen {
                let d = Document {
                    buf,
                    kind: DocKind::Response,
                    start_span: Span { start: 0, end: hstart - 2 },
                    code_span: Some(code),
                    headers: hs,
                    body_span: None,
                    body: Vec::new(),
                };
                proof {
                    assert(d.body@ =~= Seq::<JsonNode>::empty());
                }
                Ok(d)
            } else {
                match parse_json_from(&buf, hend) {
                    None => Err(ParseError { rule: Rule::Body, pos: hend }),
                    Some(nodes) => {
                        let d = Document {
                            buf,
                            kind: DocKind::Response,
                            start_span: Span { start: 0, end: hstart - 2 },
                            code_span: Some(code),
                            headers: hs,
                            body_span: Some(Span { start: hend, end: blen }),
                            body: nodes,
                        };
                        Ok(d)
                    },
                }
            }
        },
    }
}

} // verus!
