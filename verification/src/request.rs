//! Parsing one request head from the bytes read so far.
//!
//! The grammar is that of the `httparse` crate, which does the parsing; it is
//! not proved here. Its result is named as a function of the bytes and of the
//! number of header slots, and the library's contracts speak of that name.

use vstd::prelude::*;
use crate::response::{header_views, Header, HeaderView};

verus! {

/// The most header fields that a request may carry.
pub const MAX_HEADERS: usize = 64;

/// A parsed request head. Every part borrows from the bytes it was parsed
/// from; nothing is copied.
#[derive(Debug)]
pub struct RawRequest<'a> {
    pub method: &'a [u8],
    pub path: &'a [u8],
    /// The minor version: 1 for `HTTP/1.1`.
    pub version: u8,
    pub headers: Vec<Header<'a>>,
}

/// A request head as plain data.
pub struct RequestView {
    pub method: Seq<u8>,
    pub path: Seq<u8>,
    pub version: u8,
    pub headers: Seq<HeaderView>,
}

impl<'a> View for RawRequest<'a> {
    type V = RequestView;

    open spec fn view(&self) -> RequestView {
        RequestView {
            method: self.method@,
            path: self.path@,
            version: self.version,
            headers: header_views(self.headers@),
        }
    }
}

/// What parsing found at the start of the bytes.
#[derive(Debug)]
pub enum ParseOutcome<'a> {
    /// A whole request head, which ends `consumed` bytes in.
    Complete { consumed: usize, request: RawRequest<'a> },
    /// A prefix of a request head: more bytes are needed.
    Partial,
    /// Bytes that no request head starts with.
    Malformed,
}

/// A parse outcome as plain data.
pub enum OutcomeView {
    Complete { consumed: nat, request: RequestView },
    Partial,
    Malformed,
}

impl<'a> View for ParseOutcome<'a> {
    type V = OutcomeView;

    open spec fn view(&self) -> OutcomeView {
        match self {
            ParseOutcome::Complete { consumed, request } => OutcomeView::Complete {
                consumed: *consumed as nat,
                request: request@,
            },
            ParseOutcome::Partial => OutcomeView::Partial,
            ParseOutcome::Malformed => OutcomeView::Malformed,
        }
    }
}

/// What `httparse` finds at the start of `bytes` when it is given `slots`
/// header slots.
pub uninterp spec fn httparse_request(bytes: Seq<u8>, slots: nat) -> OutcomeView;

/// `httparse::Request::parse` on a fresh request with `slots` empty header
/// slots. The outcome depends on the bytes and the slot count alone. A whole
/// head ends after at least one byte and within the bytes given, and has no
/// more fields than slots; an error of any kind is reported as `Malformed`.
#[verifier::external_body]
fn httparse_parse<'a>(bytes: &'a [u8], slots: usize) -> (outcome: ParseOutcome<'a>)
    ensures
        outcome@ == httparse_request(bytes@, slots as nat),
        outcome@ matches OutcomeView::Complete { consumed, request } ==> 0 < consumed
            <= bytes@.len() && request.headers.len() <= slots,
{
    let mut fields = vec![httparse::EMPTY_HEADER; slots];
    let mut head = httparse::Request::new(&mut fields);
    match head.parse(bytes) {
        Ok(httparse::Status::Complete(consumed)) => ParseOutcome::Complete {
            consumed,
            request: RawRequest {
                method: head.method.unwrap_or_default().as_bytes(),
                path: head.path.unwrap_or_default().as_bytes(),
                version: head.version.unwrap_or_default(),
                headers: head.headers.iter().map(|h| Header { name: h.name.as_bytes(), value: h.value }).collect(),
            },
        },
        Ok(httparse::Status::Partial) => ParseOutcome::Partial,
        Err(_) => ParseOutcome::Malformed,
    }
}

/// The outcome of parsing `bytes`: nothing at all is a prefix of a request;
/// anything else is what `httparse` finds with `MAX_HEADERS` slots.
pub open spec fn parse_outcome(bytes: Seq<u8>) -> OutcomeView {
    if bytes.len() == 0 {
        OutcomeView::Partial
    } else {
        httparse_request(bytes, MAX_HEADERS as nat)
    }
}

/// A whole head ends after at least one byte and within the bytes parsed, and
/// carries at most `MAX_HEADERS` fields.
pub open spec fn outcome_in_bounds(outcome: OutcomeView, len: nat) -> bool {
    outcome matches OutcomeView::Complete { consumed, request } ==> 0 < consumed <= len
        && request.headers.len() <= MAX_HEADERS
}

/// Parses one request head from the start of `bytes`. The bytes are not
/// changed and nothing else is touched.
pub fn parse_request<'a>(bytes: &'a [u8]) -> (outcome: ParseOutcome<'a>)
    ensures
        outcome@ == parse_outcome(bytes@),
        outcome_in_bounds(outcome@, bytes@.len()),
        bytes@.len() == 0 ==> outcome@ is Partial,
{
    if bytes.len() == 0 {
        return ParseOutcome::Partial;
    }
    httparse_parse(bytes, MAX_HEADERS)
}

} // verus!
