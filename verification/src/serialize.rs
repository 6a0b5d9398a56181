//! Rendering a response into the bytes that go on the socket.

use vstd::prelude::*;
use vstd::string::*;
use bytes::BytesMut;
use crate::buffer::{contents, max_len, put_slice, with_capacity};
use crate::clock::{date_text, http_date, unix_time, DATE_LEN};
use crate::readback::{lemma_round_trip, names_without_colon, read_back, Reading};
use crate::response::{header_views, Header, HeaderView, Response, ResponseView};
use crate::text::{
    ascii, decimal_digits, lemma_decimal_digits, lemma_digit_count_bound, literal, printable,
};
use crate::wire::{
    crlf, date_field, emitted_headers, fields_line_safe, header_block, header_line,
    injected_headers, lemma_block_concat, lemma_block_len, lemma_block_push,
    lemma_lines_len_prefix, length_field, lines_len, reason_phrase, reason_text, separator,
    status_line, wire, MAX_REASON_LEN,
};

verus! {

/// The fixed part of the size estimate for a response.
pub const BASE_OVERHEAD: usize = 128;

/// The part of the size estimate that each header field adds.
pub const PER_HEADER_OVERHEAD: usize = 32;

/// The size that the output buffer is first given: a guess, not a limit.
pub open spec fn size_estimate(header_count: nat, body_len: nat) -> nat {
    BASE_OVERHEAD as nat + header_count * (PER_HEADER_OVERHEAD as nat) + body_len
}

/// A response is small enough to be rendered into one buffer: its own header
/// lines and body, with room for the status line and the injected fields,
/// stay within the largest allocation.
pub open spec fn fits(r: ResponseView) -> bool {
    BASE_OVERHEAD + lines_len(r.headers) + r.body.len() <= max_len()
}

/// The status line, the injected fields and the empty line never need more
/// than the fixed part of the estimate, so a response that fits is rendered
/// within the largest allocation.
pub proof fn lemma_wire_len(r: ResponseView, reason: Seq<u8>, date: Seq<u8>)
    requires
        date.len() == DATE_LEN,
        reason.len() <= MAX_REASON_LEN,
        r.body.len() <= usize::MAX,
    ensures
        wire(r, reason, date).len() <= BASE_OVERHEAD + lines_len(r.headers) + r.body.len(),
        wire(r, reason, date).len() >= lines_len(r.headers) + r.body.len(),
        fits(r) ==> wire(r, reason, date).len() <= max_len(),
{
    reveal_strlit("HTTP/1.1 ");
    reveal_strlit("Content-Length");
    reveal_strlit("Date");
    lemma_decimal_digits(r.status as nat);
    lemma_digit_count_bound(r.status as nat);
    lemma_decimal_digits(r.body.len());
    lemma_block_concat(r.headers, injected_headers(r, date));
    lemma_block_len(r.headers);
    let inj = injected_headers(r, date);
    lemma_block_len(inj);
    assert(lines_len(inj) <= 75) by {
        lemma_injected_len(r, date);
    }
}

/// The lines of the injected fields take at most 75 bytes for a body that
/// machine memory can hold.
proof fn lemma_injected_len(r: ResponseView, date: Seq<u8>)
    requires
        date.len() == DATE_LEN,
    ensures
        r.body.len() <= usize::MAX ==> lines_len(injected_headers(r, date)) <= 75,
{
    reveal_strlit("Content-Length");
    reveal_strlit("Date");
    lemma_decimal_digits(r.body.len());
    lemma_digit_count_bound(r.body.len());
    let length = seq![length_field(r)];
    let stamp = seq![date_field(date)];
    let none = Seq::<HeaderView>::empty();
    assert(lines_len(none) == 0);
    assert(length =~= none.push(length_field(r)));
    assert(stamp =~= none.push(date_field(date)));
    lemma_block_push(none, length_field(r));
    lemma_block_push(none, date_field(date));
    lemma_block_concat(length, stamp);
    lemma_block_concat(length, none);
    lemma_block_concat(none, stamp);
    lemma_block_concat(none, none);
}

/// The capacity that the output buffer starts with: the size estimate, cut
/// down to what can be allocated at all.
fn capacity_hint(header_count: usize, body_len: usize) -> (capacity: usize)
    ensures
        capacity <= max_len(),
        size_estimate(header_count as nat, body_len as nat) <= max_len() ==> capacity
            == size_estimate(header_count as nat, body_len as nat),
{
    let limit: usize = isize::MAX as usize;
    if header_count > (limit - BASE_OVERHEAD) / PER_HEADER_OVERHEAD {
        return BASE_OVERHEAD;
    }
    let head: usize = BASE_OVERHEAD + header_count * PER_HEADER_OVERHEAD;
    if body_len > limit - head {
        return head;
    }
    head + body_len
}

/// Appends one header line to `out`.
fn put_header(out: &mut BytesMut, name: &[u8], value: &[u8])
    requires
        contents(*old(out)).len() + name@.len() + value@.len() + 4 <= max_len(),
    ensures
        contents(*final(out)) == contents(*old(out)) + header_line(
            HeaderView { name: name@, value: value@ },
        ),
{
    proof {
        reveal_strlit(": ");
        reveal_strlit("\r\n");
    }
    put_slice(out, name);
    put_slice(out, literal(": "));
    put_slice(out, value);
    put_slice(out, literal("\r\n"));
    assert(ascii(": "@) =~= separator());
    assert(ascii("\r\n"@) =~= crlf());
    assert(contents(*out) =~= contents(*old(out)) + header_line(
        HeaderView { name: name@, value: value@ },
    ));
}

/// Whether a response is small enough to be rendered: see `fits`.
pub fn can_serialize(response: &Response) -> (ok: bool)
    ensures
        ok == fits(response@),
{
    let limit: usize = isize::MAX as usize;
    let body = response.body();
    let headers = response.headers();
    if body.len() > limit - BASE_OVERHEAD {
        return false;
    }
    let mut total: usize = BASE_OVERHEAD + body.len();
    let ghost all = header_views(headers@);
    let mut i: usize = 0;
    while i < headers.len()
        invariant
            i <= headers@.len(),
            limit == max_len(),
            all == header_views(headers@),
            all == response@.headers,
            body@ == response@.body,
            total == BASE_OVERHEAD + body@.len() + lines_len(all.take(i as int)),
            total <= limit,
        decreases headers@.len() - i,
    {
        let name = headers[i].name;
        let value = headers[i].value;
        proof {
            lemma_lines_len_prefix(all, i + 1);
            assert(all.take(i + 1) =~= all.take(i as int).push(all[i as int]));
            lemma_block_push(all.take(i as int), all[i as int]);
        }
        if name.len() > limit - total {
            return false;
        }
        let with_name: usize = total + name.len();
        if value.len() > limit - with_name {
            return false;
        }
        let with_value: usize = with_name + value.len();
        if 4 > limit - with_value {
            return false;
        }
        total = with_value + 4;
        i += 1;
    }
    assert(all.take(i as int) =~= all);
    true
}

/// Appends the status line for `status` to `out`.
fn put_status_line(out: &mut BytesMut, status: u16)
    requires
        contents(*old(out)).len() + 48 <= max_len(),
    ensures
        contents(*final(out)) == contents(*old(out)) + status_line(status, reason_text(status)),
        status_line(status, reason_text(status)).len() <= 48,
        printable(reason_text(status)),
{
    proof {
        reveal_strlit("HTTP/1.1 ");
        reveal_strlit(" ");
        reveal_strlit("\r\n");
        lemma_decimal_digits(status as nat);
        lemma_digit_count_bound(status as nat);
    }
    put_slice(out, literal("HTTP/1.1 "));
    let code = decimal_digits(status as usize);
    put_slice(out, code.as_slice());
    put_slice(out, literal(" "));
    match reason_phrase(status) {
        Some(phrase) => {
            put_slice(out, phrase);
        },
        None => {},
    }
    put_slice(out, literal("\r\n"));
    assert(ascii("\r\n"@) =~= crlf());
    assert(ascii(" "@) =~= seq![32u8]);
    assert(contents(*out) =~= contents(*old(out)) + status_line(status, reason_text(status)));
}

/// Appends the lines of `headers` to `out`, in order.
fn put_headers(out: &mut BytesMut, headers: &[Header])
    requires
        contents(*old(out)).len() + lines_len(header_views(headers@)) <= max_len(),
    ensures
        contents(*final(out)) == contents(*old(out)) + header_block(header_views(headers@)),
{
    let ghost all = header_views(headers@);
    let ghost before = contents(*out);
    let mut i: usize = 0;
    assert(before + header_block(all.take(0)) =~= before);
    while i < headers.len()
        invariant
            i <= headers@.len(),
            all == header_views(headers@),
            before.len() + lines_len(all) <= max_len(),
            contents(*out) == before + header_block(all.take(i as int)),
        decreases headers@.len() - i,
    {
        proof {
            lemma_lines_len_prefix(all, i + 1);
            assert(all.take(i + 1) =~= all.take(i as int).push(all[i as int]));
            lemma_block_push(all.take(i as int), all[i as int]);
            lemma_block_len(all.take(i as int));
        }
        put_header(out, headers[i].name, headers[i].value);
        assert(contents(*out) =~= before + header_block(all.take(i + 1)));
        i += 1;
    }
    assert(all.take(i as int) =~= all);
}

/// Appends the injected fields for `response` to `out`: `Content-Length`,
/// then `Date`, each only where the response has no field of that name.
fn put_injected(out: &mut BytesMut, response: &Response, date: &[u8])
    requires
        date@.len() == DATE_LEN,
        contents(*old(out)).len() + 75 <= max_len(),
    ensures
        contents(*final(out)) == contents(*old(out)) + header_block(
            injected_headers(response@, date@),
        ),
        contents(*final(out)).len() <= contents(*old(out)).len() + 75,
{
    let ghost r = response@;
    let ghost before = contents(*out);
    let ghost none = Seq::<HeaderView>::empty();
    let ghost mut sent = none;
    proof {
        reveal_strlit("Content-Length");
        reveal_strlit("Date");
        lemma_decimal_digits(r.body.len());
        lemma_digit_count_bound(r.body.len());
        assert(before + header_block(none) =~= before);
    }
    if !response.contains_header(literal("Content-Length")) {
        let digits = decimal_digits(response.body().len());
        put_header(out, literal("Content-Length"), digits.as_slice());
        proof {
            lemma_block_push(none, length_field(r));
            sent = none.push(length_field(r));
        }
    }
    assert(contents(*out) =~= before + header_block(sent));
    proof {
        lemma_block_len(sent);
    }
    if !response.contains_header(literal("Date")) {
        put_header(out, literal("Date"), date);
        proof {
            lemma_block_push(sent, date_field(date@));
            sent = sent.push(date_field(date@));
        }
    }
    assert(contents(*out) =~= before + header_block(sent));
    assert(sent =~= injected_headers(r, date@));
    proof {
        lemma_block_len(sent);
    }
}

/// Renders `response` with the date of the clock reading `now` (seconds
/// after the Unix epoch): the status line, the response's header lines in
/// their order, `Content-Length` and then `Date` where the response has no
/// field of that name, an empty line, and the body.
pub fn serialize_response_at(response: &Response, now: u64) -> (out: BytesMut)
    requires
        fits(response@),
    ensures
        contents(out) == wire(response@, reason_text(response@.status), date_text(now)),
        printable(reason_text(response@.status)),
        printable(date_text(now)),
        fields_line_safe(response@.headers) && names_without_colon(response@.headers)
            ==> read_back(contents(out)) == (Reading {
            status: response@.status as nat,
            reason: reason_text(response@.status),
            fields: emitted_headers(response@, date_text(now)),
            body: response@.body,
        }),
{
    let status = response.status();
    let headers = response.headers();
    let body = response.body();
    let date = http_date(now);
    let ghost r = response@;
    let ghost reason = reason_text(status);
    let ghost injected = injected_headers(r, date@);

    let mut out = with_capacity(capacity_hint(headers.len(), body.len()));
    put_status_line(&mut out, status);
    assert(contents(out) =~= status_line(status, reason));
    put_headers(&mut out, headers);
    proof {
        lemma_block_len(r.headers);
    }
    put_injected(&mut out, response, date.as_slice());
    proof {
        lemma_block_concat(r.headers, injected);
        reveal_strlit("\r\n");
        assert(ascii("\r\n"@) =~= crlf());
    }
    put_slice(&mut out, literal("\r\n"));
    put_slice(&mut out, body);
    assert(contents(out) =~= wire(r, reason, date_text(now)));
    proof {
        if fields_line_safe(r.headers) && names_without_colon(r.headers) {
            lemma_round_trip(r, reason, date_text(now));
        }
    }
    out
}

/// Renders `response` with the date that the system clock gives: the output
/// is that of `serialize_response_at` for some clock reading.
pub fn serialize_response(response: &Response) -> (out: BytesMut)
    requires
        fits(response@),
    ensures
        exists|now: u64|
            contents(out) == wire(response@, reason_text(response@.status), #[trigger] date_text(now))
                && printable(date_text(now)),
        printable(reason_text(response@.status)),
{
    let now = unix_time();
    serialize_response_at(response, now)
}

} // verus!
