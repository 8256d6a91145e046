//! Error taxonomy. Configuration and session errors abort one session;
//! parse and range errors are fatal to the disclosure decision: they are
//! never downgraded to warnings, since an incorrect disclosure is a
//! security outcome, not a usability one.

use vstd::prelude::*;
use crate::span::Span;

verus! {

/// The grammar rule whose match failed, named in every parse error.
#[derive(Clone, Copy, PartialEq, Eq, Structural, Debug)]
pub enum Rule {
    RequestLine,
    StatusLine,
    Header,
    Body,
}

/// A structured parse failure: the rule that did not match and the byte
/// position at which matching stopped. No partial tree accompanies it.
#[derive(Clone, Copy, PartialEq, Eq, Structural, Debug)]
pub struct ParseError {
    pub rule: Rule,
    pub pos: usize,
}

/// Everything that can go wrong between reading a framed message and
/// committing a disclosure.
#[derive(Clone, Copy, PartialEq, Eq, Structural, Debug)]
pub enum Errors {
    /// The four length bytes of a frame could not be read.
    FailedToReadSizeFromExtension,
    /// The frame payload could not be read.
    FailedToReadMessageFromExtension,
    /// The target URI scheme is not `https`.
    InvalidScheme,
    /// The target URI has no authority or host.
    MissingAuthority,
    /// The server answered with a status other than 200.
    UnexpectedStatus,
    /// The sent transcript is not a well-formed request.
    ParseRequest(ParseError),
    /// The received transcript is not a well-formed response.
    ParseResponse(ParseError),
    /// A span handed to the range set builder is inverted or reaches past
    /// the end of the source buffer; a disclosure-correctness bug-stop.
    InvalidRange(Span),
}

impl Errors {
    /// A short, fixed description of the error, for the event stream.
    pub fn message(&self) -> (r: &'static str)
    {
        match self {
            Errors::FailedToReadSizeFromExtension => "failed to read size from extension",
            Errors::FailedToReadMessageFromExtension => "failed to read message from extension",
            Errors::InvalidScheme => "invalid scheme",
            Errors::MissingAuthority => "request URI does not have an authority or host",
            Errors::UnexpectedStatus => "server status was not 200 OK",
            Errors::ParseRequest(_) => "sent transcript failed to parse",
            Errors::ParseResponse(_) => "received transcript failed to parse",
            Errors::InvalidRange(_) => "range span violates the source buffer bounds",
        }
    }
}

} // verus!
