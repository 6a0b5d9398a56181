//! Choosing the response for a request by its path.

use vstd::prelude::*;
use vstd::string::*;
use crate::request::RawRequest;
use crate::response::{fields_named, has_header, valid_status, HeaderView, Response, ResponseView};
use crate::serialize::fits;
use crate::text::{ascii, bytes_eq, literal};
use crate::wire::{
    content_length_name, date_field, date_name, emitted_headers, fields_line_safe,
    lemma_block_push, lemma_content_length_on_the_wire, lemma_date_on_the_wire, length_field,
    lines_len,
};

verus! {

/// A plain-text response as data: one `Content-Type` field and the body.
pub open spec fn plain_text(status: u16, body: Seq<u8>) -> ResponseView {
    ResponseView {
        status,
        headers: seq![
            HeaderView { name: ascii("Content-Type"@), value: ascii("text/plain"@) },
        ],
        body,
    }
}

/// The response for a path: a greeting at the root, a short liveness answer
/// at `/health`, and 404 for every other path. The match is exact.
pub open spec fn route(path: Seq<u8>) -> ResponseView {
    if path == ascii("/"@) {
        plain_text(200, ascii("Hello, World!"@))
    } else if path == ascii("/health"@) {
        plain_text(200, ascii("OK"@))
    } else {
        plain_text(404, ascii("Not Found"@))
    }
}

/// The response to bytes that no request starts with.
pub open spec fn bad_request_view() -> ResponseView {
    plain_text(400, ascii("Bad Request"@))
}

/// The response to a request head that does not end within the buffer.
pub open spec fn incomplete_request_view() -> ResponseView {
    plain_text(400, ascii("Incomplete HTTP request"@))
}

/// A plain-text response with the given status and body.
fn plain_text_response(status: u16, body: &'static str) -> (response: Response<'static>)
    requires
        100 <= status <= 999,
        is_ascii(body),
    ensures
        response@ == plain_text(status, ascii(body@)),
        body@.len() <= 23 && (status == 200 || status == 404 || status == 400) ==> fits(response@),
{
    proof {
        reveal_strlit("Content-Type");
        reveal_strlit("text/plain");
    }
    let bare = Response::new(status, literal(body)).unwrap();
    let response = bare.with_header(literal("Content-Type"), literal("text/plain"));
    assert(response@.headers =~= plain_text(status, ascii(body@)).headers);
    proof {
        if body@.len() <= 23 && (status == 200 || status == 404 || status == 400) {
            lemma_stock_is_ready(response@);
        }
    }
    response
}

/// The response for a parsed request. Only the path decides; the call always
/// succeeds and touches nothing else.
pub fn handle_request(request: &RawRequest) -> (response: Response<'static>)
    ensures
        response@ == route(request@.path),
        fits(response@),
{
    proof {
        reveal_strlit("/");
        reveal_strlit("/health");
        reveal_strlit("Hello, World!");
        reveal_strlit("OK");
        reveal_strlit("Not Found");
    }
    if bytes_eq(request.path, literal("/")) {
        plain_text_response(200, "Hello, World!")
    } else if bytes_eq(request.path, literal("/health")) {
        plain_text_response(200, "OK")
    } else {
        plain_text_response(404, "Not Found")
    }
}

/// The 400 response to bytes that no request starts with.
pub fn bad_request() -> (response: Response<'static>)
    ensures
        response@ == bad_request_view(),
        fits(response@),
{
    proof {
        reveal_strlit("Bad Request");
    }
    plain_text_response(400, "Bad Request")
}

/// The 400 response to a request head that outgrew the buffer.
pub fn incomplete_request() -> (response: Response<'static>)
    ensures
        response@ == incomplete_request_view(),
        fits(response@),
{
    proof {
        reveal_strlit("Incomplete HTTP request");
    }
    plain_text_response(400, "Incomplete HTTP request")
}

/// The two known paths answer 200 with their bodies.
pub proof fn lemma_known_paths()
    ensures
        route(ascii("/"@)).status == 200,
        route(ascii("/"@)).body == ascii("Hello, World!"@),
        route(ascii("/health"@)).status == 200,
        route(ascii("/health"@)).body == ascii("OK"@),
{
    reveal_strlit("/");
    reveal_strlit("/health");
    assert(ascii("/"@).len() != ascii("/health"@).len());
}

/// Every path but the two known ones answers 404 with the body `Not Found`.
pub proof fn lemma_unknown_path(path: Seq<u8>)
    requires
        path != ascii("/"@),
        path != ascii("/health"@),
    ensures
        route(path).status == 404,
        route(path).body == ascii("Not Found"@),
{
}

/// What every response of this library's own making has in common: one of
/// the three status codes, the one field `Content-Type: text/plain`, and a
/// short body.
pub open spec fn stock(r: ResponseView) -> bool {
    &&& r.status == 200 || r.status == 404 || r.status == 400
    &&& r.headers == seq![
        HeaderView { name: ascii("Content-Type"@), value: ascii("text/plain"@) },
    ]
    &&& r.body.len() <= 23
}

/// Every routed response and both 400 responses are stock responses, and a
/// routed response is a 200 on the two known paths only.
pub proof fn lemma_routes_are_stock(path: Seq<u8>)
    ensures
        stock(route(path)),
        stock(bad_request_view()),
        stock(incomplete_request_view()),
        route(path).status == 200 <==> (path == ascii("/"@) || path == ascii("/health"@)),
{
    reveal_strlit("Hello, World!");
    reveal_strlit("OK");
    reveal_strlit("Not Found");
    reveal_strlit("Bad Request");
    reveal_strlit("Incomplete HTTP request");
}

/// A stock response can always be serialized, brings neither of the injected
/// fields itself, and holds no line break in its field.
pub proof fn lemma_stock_is_ready(r: ResponseView)
    requires
        stock(r),
    ensures
        fits(r),
        valid_status(r.status),
        fields_line_safe(r.headers),
        !has_header(r.headers, content_length_name()),
        !has_header(r.headers, date_name()),
{
    reveal_strlit("Content-Type");
    reveal_strlit("text/plain");
    reveal_strlit("Content-Length");
    reveal_strlit("Date");
    let field = HeaderView { name: ascii("Content-Type"@), value: ascii("text/plain"@) };
    let none = Seq::<HeaderView>::empty();
    assert(r.headers =~= none.push(field));
    lemma_block_push(none, field);
    assert(lines_len(none) == 0);
    assert(lines_len(r.headers) == 26);
}

/// A stock response goes out with exactly one `Content-Length` field, whose
/// value is the decimal length of its body, and exactly one `Date` field.
pub proof fn lemma_stock_on_the_wire(r: ResponseView, date: Seq<u8>)
    requires
        stock(r),
    ensures
        fields_named(emitted_headers(r, date), content_length_name()) == seq![length_field(r)],
        fields_named(emitted_headers(r, date), date_name()) == seq![date_field(date)],
{
    lemma_stock_is_ready(r);
    lemma_content_length_on_the_wire(r, date);
    lemma_date_on_the_wire(r, date);
}

} // verus!
