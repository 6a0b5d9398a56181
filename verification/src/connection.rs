//! The life of one connection as a state machine.
//!
//! The caller owns the socket: it reads, hands what it read to `on_read`,
//! writes the responses that come back in their order, and drops the socket
//! once it is told to close. Everything that is decided on the way is decided
//! here.

use vstd::prelude::*;
use bytes::BytesMut;
use crate::buffer::{advance, as_slice, contents, len, put_slice, with_capacity};
use crate::request::{parse_outcome, parse_request, OutcomeView, ParseOutcome};
use crate::response::{Response, ResponseView};
use crate::router::{
    bad_request, bad_request_view, handle_request, incomplete_request, incomplete_request_view,
    lemma_routes_are_stock, lemma_stock_is_ready, route, stock,
};
use crate::serialize::fits;

verus! {

/// The most bytes that a connection buffers while a request head is
/// incomplete.
pub const BUFFER_SIZE: usize = 8192;

/// A connection as plain data: the bytes read and not yet answered, and
/// whether the connection is over.
pub struct ConnectionView {
    pub buffered: Seq<u8>,
    pub closed: bool,
}

/// What the caller is to do after a read, as plain data: write these
/// responses in order, then close the socket or read again.
pub struct ReplyView {
    pub responses: Seq<ResponseView>,
    pub close: bool,
}

/// The outcome of working through buffered bytes.
pub struct Drained {
    /// The responses to send, oldest first.
    pub responses: Seq<ResponseView>,
    /// The bytes that stay buffered.
    pub rest: Seq<u8>,
    /// Whether the connection ends here.
    pub closed: bool,
}

/// Works through `bytes` from the front. Each whole request is answered by
/// its route and dropped from the buffer. A prefix of a request stays
/// buffered, unless it already fills the buffer: then it is answered with 400
/// and the connection ends. Bytes that no request starts with are answered
/// with 400 and the connection ends.
pub open spec fn drain(bytes: Seq<u8>) -> Drained
    decreases bytes.len(),
{
    match parse_outcome(bytes) {
        OutcomeView::Complete { consumed, request } => {
            if 0 < consumed <= bytes.len() {
                let later = drain(bytes.skip(consumed as int));
                Drained { responses: seq![route(request.path)] + later.responses, ..later }
            } else {
                Drained { responses: seq![bad_request_view()], rest: bytes, closed: true }
            }
        },
        OutcomeView::Partial => {
            if bytes.len() >= BUFFER_SIZE {
                Drained { responses: seq![incomplete_request_view()], rest: bytes, closed: true }
            } else {
                Drained { responses: Seq::empty(), rest: bytes, closed: false }
            }
        },
        OutcomeView::Malformed => Drained {
            responses: seq![bad_request_view()],
            rest: bytes,
            closed: true,
        },
    }
}

/// The most bytes that the next read may return: what is left of the buffer.
pub open spec fn room(c: ConnectionView) -> nat {
    if c.buffered.len() <= BUFFER_SIZE {
        (BUFFER_SIZE - c.buffered.len()) as nat
    } else {
        0
    }
}

/// The connection after a read that returned `data`. A closed connection
/// stays as it is. A read of nothing is the peer's end of stream and closes.
/// Any other read is appended to the buffer, which is then drained.
pub open spec fn next_state(c: ConnectionView, data: Seq<u8>) -> ConnectionView {
    if c.closed {
        c
    } else if data.len() == 0 {
        ConnectionView { closed: true, ..c }
    } else {
        let d = drain(c.buffered + data);
        ConnectionView { buffered: d.rest, closed: d.closed }
    }
}

/// What the caller is told after a read that returned `data`.
pub open spec fn reaction(c: ConnectionView, data: Seq<u8>) -> ReplyView {
    if c.closed || data.len() == 0 {
        ReplyView { responses: Seq::empty(), close: true }
    } else {
        let d = drain(c.buffered + data);
        ReplyView { responses: d.responses, close: d.closed }
    }
}

/// The views of a run of responses.
pub open spec fn response_views(responses: Seq<Response<'static>>) -> Seq<ResponseView> {
    responses.map_values(|r: Response<'static>| r@)
}

/// What the caller is to do after a read: write `responses` in order, then
/// close the socket if `close` is set, else read again.
#[derive(Debug)]
pub struct Reply {
    pub responses: Vec<Response<'static>>,
    pub close: bool,
}

impl View for Reply {
    type V = ReplyView;

    open spec fn view(&self) -> ReplyView {
        ReplyView { responses: response_views(self.responses@), close: self.close }
    }
}

/// One connection: its read buffer and whether it is over.
#[derive(Debug)]
pub struct Connection {
    buffer: BytesMut,
    closed: bool,
}

impl View for Connection {
    type V = ConnectionView;

    closed spec fn view(&self) -> ConnectionView {
        ConnectionView { buffered: contents(self.buffer), closed: self.closed }
    }
}

impl Connection {
    /// A fresh connection: open, with nothing buffered.
    pub fn new() -> (connection: Connection)
        ensures
            connection@ == (ConnectionView { buffered: Seq::empty(), closed: false }),
    {
        Connection { buffer: with_capacity(BUFFER_SIZE), closed: false }
    }

    /// Whether the connection is over.
    pub fn is_closed(&self) -> (closed: bool)
        ensures
            closed == self@.closed,
    {
        self.closed
    }

    /// The number of bytes read and not yet answered.
    pub fn buffered_len(&self) -> (n: usize)
        ensures
            n == self@.buffered.len(),
    {
        len(&self.buffer)
    }

    /// The most bytes that the next read may return: what is left of the
    /// buffer.
    pub fn room(&self) -> (n: usize)
        ensures
            n == room(self@),
    {
        let used = len(&self.buffer);
        if used <= BUFFER_SIZE {
            BUFFER_SIZE - used
        } else {
            0
        }
    }

    /// Takes what one read returned (nothing for end of stream) and says what
    /// to send and whether to close. The read must fit in the buffer.
    pub fn on_read(&mut self, data: &[u8]) -> (reply: Reply)
        requires
            data@.len() <= room(old(self)@),
        ensures
            final(self)@ == next_state(old(self)@, data@),
            reply@ == reaction(old(self)@, data@),
            forall|i: int|
                0 <= i < reply.responses@.len() ==> stock((#[trigger] reply.responses@[i])@)
                    && fits(reply.responses@[i]@),
    {
        let mut responses: Vec<Response<'static>> = Vec::new();
        assert(response_views(responses@) =~= Seq::<ResponseView>::empty());
        if self.closed || data.len() == 0 {
            self.closed = true;
            return Reply { responses, close: true };
        }
        put_slice(&mut self.buffer, data);
        let ghost start = contents(self.buffer);
        let mut done = false;
        while !done
            invariant
                !done ==> !self.closed,
                !done ==> drain(start).responses == response_views(responses@) + drain(
                    contents(self.buffer),
                ).responses,
                !done ==> drain(start).rest == drain(contents(self.buffer)).rest,
                !done ==> drain(start).closed == drain(contents(self.buffer)).closed,
                done ==> drain(start).responses == response_views(responses@),
                done ==> drain(start).rest == contents(self.buffer),
                done ==> drain(start).closed == self.closed,
            decreases
                    if done {
                        0
                    } else {
                        contents(self.buffer).len() + 1
                    },
        {
            let ghost sent = response_views(responses@);
            let ghost current = contents(self.buffer);
            match parse_request(as_slice(&self.buffer)) {
                ParseOutcome::Complete { consumed, request } => {
                    let response = handle_request(&request);
                    responses.push(response);
                    advance(&mut self.buffer, consumed);
                    assert(response_views(responses@) =~= sent.push(route(request@.path)));
                    assert(drain(start).responses =~= response_views(responses@) + drain(
                        contents(self.buffer),
                    ).responses);
                },
                ParseOutcome::Partial => {
                    if len(&self.buffer) >= BUFFER_SIZE {
                        responses.push(incomplete_request());
                        self.closed = true;
                        assert(response_views(responses@) =~= sent.push(
                            incomplete_request_view(),
                        ));
                    }
                    assert(drain(start).responses =~= response_views(responses@));
                    done = true;
                },
                ParseOutcome::Malformed => {
                    responses.push(bad_request());
                    self.closed = true;
                    assert(response_views(responses@) =~= sent.push(bad_request_view()));
                    assert(drain(start).responses =~= response_views(responses@));
                    done = true;
                },
            }
        }
        proof {
            lemma_drain_shape(start);
            assert forall|i: int| 0 <= i < responses@.len() implies stock(
                (#[trigger] responses@[i])@,
            ) && fits(responses@[i]@) by {
                assert(responses@[i]@ == response_views(responses@)[i]);
                lemma_stock_is_ready(responses@[i]@);
            }
        }
        Reply { responses, close: self.closed }
    }
}

/// What draining always gives. The bytes that stay are the end of the bytes
/// given. A connection that stays open holds a prefix of a request that has
/// room to grow. A connection that ends has sent a 400 last. Every response
/// is a stock response, and every response before a closing one is the
/// routed answer to a whole request: 200 or 404.
pub proof fn lemma_drain_shape(bytes: Seq<u8>)
    ensures
        drain(bytes).rest.len() <= bytes.len(),
        drain(bytes).rest == bytes.skip(bytes.len() - drain(bytes).rest.len()),
        !drain(bytes).closed ==> parse_outcome(drain(bytes).rest) is Partial && drain(
            bytes,
        ).rest.len() < BUFFER_SIZE,
        drain(bytes).closed ==> drain(bytes).responses.len() > 0 && drain(
            bytes,
        ).responses.last().status == 400,
        forall|i: int|
            0 <= i < drain(bytes).responses.len() ==> stock(#[trigger] drain(bytes).responses[i]),
        forall|i: int|
            0 <= i < drain(bytes).responses.len() - 1 ==> (#[trigger] drain(
                bytes,
            ).responses[i]).status != 400,
        !drain(bytes).closed ==> forall|i: int|
            0 <= i < drain(bytes).responses.len() ==> (#[trigger] drain(bytes).responses[i]).status
                != 400,
    decreases bytes.len(),
{
    lemma_routes_are_stock(Seq::empty());
    match parse_outcome(bytes) {
        OutcomeView::Complete { consumed, request } => {
            if 0 < consumed <= bytes.len() {
                let tail = bytes.skip(consumed as int);
                let later = drain(tail);
                lemma_drain_shape(tail);
                lemma_routes_are_stock(request.path);
                let all = drain(bytes).responses;
                assert(all =~= seq![route(request.path)] + later.responses);
                assert(later.rest =~= bytes.skip(bytes.len() - later.rest.len()));
                assert forall|i: int| 0 <= i < all.len() implies stock(#[trigger] all[i]) by {
                    if i > 0 {
                        assert(all[i] == later.responses[i - 1]);
                    }
                }
                assert forall|i: int| 0 <= i < all.len() - 1 implies (#[trigger] all[i]).status
                    != 400 by {
                    if i > 0 {
                        assert(all[i] == later.responses[i - 1]);
                    }
                }
                if later.closed {
                    assert(all.last() == later.responses.last());
                } else {
                    assert forall|i: int| 0 <= i < all.len() implies (#[trigger] all[i]).status
                        != 400 by {
                        if i > 0 {
                            assert(all[i] == later.responses[i - 1]);
                        }
                    }
                }
            } else {
                assert(bytes.skip(0) =~= bytes);
            }
        },
        _ => {
            assert(bytes.skip(0) =~= bytes);
        },
    }
}

/// A read that leaves only a prefix of a request in the buffer is never
/// answered as if the request were whole. While the buffer has room nothing
/// is sent and every byte read so far is kept; once the prefix fills the
/// buffer a single 400 is sent and the connection ends.
pub proof fn lemma_partial_request(c: ConnectionView, data: Seq<u8>)
    requires
        !c.closed,
        data.len() > 0,
        parse_outcome(c.buffered + data) is Partial,
    ensures
        (c.buffered + data).len() < BUFFER_SIZE ==> reaction(c, data) == (ReplyView {
            responses: Seq::empty(),
            close: false,
        }) && next_state(c, data) == (ConnectionView {
            buffered: c.buffered + data,
            closed: false,
        }),
        (c.buffered + data).len() >= BUFFER_SIZE ==> reaction(c, data) == (ReplyView {
            responses: seq![incomplete_request_view()],
            close: true,
        }) && next_state(c, data).closed,
{
}

/// The peer's end of stream closes the connection without a response,
/// whatever is buffered.
pub proof fn lemma_end_of_stream(c: ConnectionView)
    ensures
        reaction(c, Seq::empty()) == (ReplyView { responses: Seq::empty(), close: true }),
        next_state(c, Seq::empty()).closed,
        next_state(c, Seq::empty()).buffered == c.buffered,
{
}

/// Bytes that no request starts with are answered with one 400, and the
/// connection ends.
pub proof fn lemma_malformed_request(c: ConnectionView, data: Seq<u8>)
    requires
        !c.closed,
        data.len() > 0,
        parse_outcome(c.buffered + data) is Malformed,
    ensures
        reaction(c, data) == (ReplyView { responses: seq![bad_request_view()], close: true }),
        next_state(c, data).closed,
{
}

/// Once a connection is closed it stays closed: whatever is read afterwards
/// is neither buffered nor answered.
pub proof fn lemma_closed_is_final(c: ConnectionView, data: Seq<u8>)
    requires
        c.closed,
    ensures
        next_state(c, data) == c,
        reaction(c, data) == (ReplyView { responses: Seq::empty(), close: true }),
{
}

/// A connection that has just told its caller to close is closed, and one
/// that has not is open with room in its buffer.
pub proof fn lemma_close_is_told(c: ConnectionView, data: Seq<u8>)
    requires
        !c.closed,
    ensures
        reaction(c, data).close == next_state(c, data).closed,
        !next_state(c, data).closed ==> next_state(c, data).buffered.len() < BUFFER_SIZE,
{
    if data.len() > 0 {
        lemma_drain_shape(c.buffered + data);
    }
}

/// Keep-alive: two whole requests read one after the other on an idle
/// connection are each answered by their own route, in order, and the
/// connection is idle and open again after each.
pub proof fn lemma_keep_alive(
    first: Seq<u8>,
    second: Seq<u8>,
    a: crate::request::RequestView,
    b: crate::request::RequestView,
)
    requires
        parse_outcome(first) == (OutcomeView::Complete { consumed: first.len(), request: a }),
        parse_outcome(second) == (OutcomeView::Complete { consumed: second.len(), request: b }),
    ensures
        ({
            let idle = ConnectionView { buffered: Seq::empty(), closed: false };
            &&& reaction(idle, first) == (ReplyView {
                responses: seq![route(a.path)],
                close: false,
            })
            &&& next_state(idle, first) == idle
            &&& reaction(idle, second) == (ReplyView {
                responses: seq![route(b.path)],
                close: false,
            })
            &&& next_state(idle, second) == idle
        }),
{
    lemma_whole_request(first, a);
    lemma_whole_request(second, b);
}

/// One whole request on an idle connection.
proof fn lemma_whole_request(bytes: Seq<u8>, request: crate::request::RequestView)
    requires
        parse_outcome(bytes) == (OutcomeView::Complete { consumed: bytes.len(), request }),
    ensures
        bytes.len() > 0,
        drain(bytes) == (Drained {
            responses: seq![route(request.path)],
            rest: Seq::empty(),
            closed: false,
        }),
{
    let none = Seq::<u8>::empty();
    assert(bytes.len() > 0);
    assert(bytes.skip(bytes.len() as int) =~= none);
    assert(drain(none).responses =~= Seq::<ResponseView>::empty());
    assert(drain(bytes).responses =~= seq![route(request.path)]);
    assert(none + bytes =~= bytes);
}

/// Two whole requests that arrive in one read are answered in order, and the
/// connection stays open.
pub proof fn lemma_back_to_back(
    first: Seq<u8>,
    second: Seq<u8>,
    a: crate::request::RequestView,
    b: crate::request::RequestView,
)
    requires
        first.len() > 0,
        parse_outcome(first + second) == (OutcomeView::Complete {
            consumed: first.len(),
            request: a,
        }),
        parse_outcome(second) == (OutcomeView::Complete { consumed: second.len(), request: b }),
    ensures
        ({
            let idle = ConnectionView { buffered: Seq::empty(), closed: false };
            &&& reaction(idle, first + second) == (ReplyView {
                responses: seq![route(a.path), route(b.path)],
                close: false,
            })
            &&& next_state(idle, first + second) == idle
        }),
{
    lemma_whole_request(second, b);
    let both = first + second;
    assert(both.skip(first.len() as int) =~= second);
    assert(Seq::<u8>::empty() + both =~= both);
    assert(drain(both).responses =~= seq![route(a.path), route(b.path)]);
}

} // verus!
