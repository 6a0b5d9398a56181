//! The wire format of a response, as a function from a response to bytes.

use vstd::prelude::*;
use crate::response::{fields_named, has_header, lemma_none_named, HeaderView, ResponseView};
use crate::text::{
    ascii, decimal, lemma_decimal_digits, line_safe, printable, same_ignoring_case,
};

verus! {

/// The reason phrase that the `http` crate lists for a status code
/// (`OK` for 200), or `None` where it lists none.
pub uninterp spec fn canonical_reason(status: u16) -> Option<Seq<u8>>;

/// No listed reason phrase is longer than this.
pub const MAX_REASON_LEN: usize = 31;

/// `http::StatusCode::from_u16` and `StatusCode::canonical_reason`: the phrase
/// listed for `status`, which depends on `status` alone, has at most 31 bytes
/// and is made of letters, spaces, apostrophes and hyphens; `None` for a
/// number that is no status code or has no listed phrase.
#[verifier::external_body]
pub(crate) fn reason_phrase(status: u16) -> (phrase: Option<&'static [u8]>)
    ensures
        phrase.is_some() == canonical_reason(status).is_some(),
        phrase matches Some(p) ==> canonical_reason(status) == Some(p@) && p@.len()
            <= MAX_REASON_LEN && printable(p@),
{
    http::StatusCode::from_u16(status).ok()?.canonical_reason().map(str::as_bytes)
}

/// The reason phrase written for `status`: the listed one, or nothing.
pub open spec fn reason_text(status: u16) -> Seq<u8> {
    match canonical_reason(status) {
        Some(phrase) => phrase,
        None => Seq::empty(),
    }
}

/// The line break of HTTP: carriage return, line feed.
pub open spec fn crlf() -> Seq<u8> {
    seq![13u8, 10u8]
}

/// What stands between a header's name and its value: colon, space.
pub open spec fn separator() -> Seq<u8> {
    seq![58u8, 32u8]
}

/// The protocol version that opens every status line, with its space.
pub open spec fn version_prefix() -> Seq<u8> {
    ascii("HTTP/1.1 "@)
}

/// The name of the header that carries the body length.
pub open spec fn content_length_name() -> Seq<u8> {
    ascii("Content-Length"@)
}

/// The name of the header that carries the time of the response.
pub open spec fn date_name() -> Seq<u8> {
    ascii("Date"@)
}

/// `HTTP/1.1 <code> <reason>` and a line break.
pub open spec fn status_line(status: u16, reason: Seq<u8>) -> Seq<u8> {
    version_prefix() + decimal(status as nat) + seq![32u8] + reason + crlf()
}

/// `<name>: <value>` and a line break.
pub open spec fn header_line(h: HeaderView) -> Seq<u8> {
    h.name + separator() + h.value + crlf()
}

/// The lines of `headers`, in order.
pub open spec fn header_block(headers: Seq<HeaderView>) -> Seq<u8>
    decreases headers.len(),
{
    if headers.len() == 0 {
        Seq::empty()
    } else {
        header_block(headers.drop_last()) + header_line(headers.last())
    }
}

/// The number of bytes in the lines of `headers`.
pub open spec fn lines_len(headers: Seq<HeaderView>) -> nat
    decreases headers.len(),
{
    if headers.len() == 0 {
        0
    } else {
        lines_len(headers.drop_last()) + headers.last().name.len() + headers.last().value.len() + 4
    }
}

/// The `Content-Length` field that is added where the response has none.
pub open spec fn length_field(r: ResponseView) -> HeaderView {
    HeaderView { name: content_length_name(), value: decimal(r.body.len()) }
}

/// The `Date` field that is added where the response has none.
pub open spec fn date_field(date: Seq<u8>) -> HeaderView {
    HeaderView { name: date_name(), value: date }
}

/// The fields that serialization adds: `Content-Length`, then `Date`, each
/// only where the response has no field of that name in any case.
pub open spec fn injected_headers(r: ResponseView, date: Seq<u8>) -> Seq<HeaderView> {
    let length = if has_header(r.headers, content_length_name()) {
        Seq::<HeaderView>::empty()
    } else {
        seq![length_field(r)]
    };
    let stamp = if has_header(r.headers, date_name()) {
        Seq::<HeaderView>::empty()
    } else {
        seq![date_field(date)]
    };
    length + stamp
}

/// All fields on the wire: the response's own, in their order, then the
/// injected ones.
pub open spec fn emitted_headers(r: ResponseView, date: Seq<u8>) -> Seq<HeaderView> {
    r.headers + injected_headers(r, date)
}

/// The head of a response written with the reason phrase `reason` and the
/// date `date`: status line, header lines, and the empty line that ends it.
pub open spec fn head(r: ResponseView, reason: Seq<u8>, date: Seq<u8>) -> Seq<u8> {
    status_line(r.status, reason) + header_block(emitted_headers(r, date)) + crlf()
}

/// The bytes of a response written with the reason phrase `reason` and the
/// date `date`: the head, then the body and nothing after it.
pub open spec fn wire(r: ResponseView, reason: Seq<u8>, date: Seq<u8>) -> Seq<u8> {
    head(r, reason, date) + r.body
}

/// The block of a run of fields with one more field is the block of the run
/// followed by that field's line.
pub proof fn lemma_block_push(headers: Seq<HeaderView>, h: HeaderView)
    ensures
        header_block(headers.push(h)) == header_block(headers) + header_line(h),
        lines_len(headers.push(h)) == lines_len(headers) + h.name.len() + h.value.len() + 4,
{
    assert(headers.push(h).drop_last() =~= headers);
}

/// The block of two runs of fields is the block of the first followed by the
/// block of the second.
pub proof fn lemma_block_concat(a: Seq<HeaderView>, b: Seq<HeaderView>)
    ensures
        header_block(a + b) == header_block(a) + header_block(b),
        lines_len(a + b) == lines_len(a) + lines_len(b),
    decreases b.len(),
{
    if b.len() == 0 {
        assert(a + b =~= a);
        assert(header_block(a) + header_block(b) =~= header_block(a));
    } else {
        lemma_block_concat(a, b.drop_last());
        assert((a + b).drop_last() =~= a + b.drop_last());
        assert((a + b).last() == b.last());
        assert(header_block(a + b) =~= header_block(a) + header_block(b));
    }
}

/// A block has as many bytes as `lines_len` counts.
pub proof fn lemma_block_len(headers: Seq<HeaderView>)
    ensures
        header_block(headers).len() == lines_len(headers),
    decreases headers.len(),
{
    if headers.len() > 0 {
        lemma_block_len(headers.drop_last());
    }
}

/// The lines of a prefix take no more bytes than the lines of the whole.
pub proof fn lemma_lines_len_prefix(headers: Seq<HeaderView>, n: int)
    requires
        0 <= n <= headers.len(),
    ensures
        lines_len(headers.take(n)) <= lines_len(headers),
    decreases headers.len(),
{
    if n == headers.len() {
        assert(headers.take(n) =~= headers);
    } else {
        lemma_lines_len_prefix(headers.drop_last(), n);
        assert(headers.drop_last().take(n) =~= headers.take(n));
    }
}

/// The names of the two injected fields differ from each other in any case.
pub proof fn lemma_injected_names()
    ensures
        content_length_name().len() == 14,
        date_name().len() == 4,
        same_ignoring_case(content_length_name(), content_length_name()),
        same_ignoring_case(date_name(), date_name()),
        !same_ignoring_case(content_length_name(), date_name()),
        !same_ignoring_case(date_name(), content_length_name()),
{
    reveal_strlit("Content-Length");
    reveal_strlit("Date");
}

/// A response without a `Content-Length` field, in any case, goes out with
/// exactly one, whose value is the decimal length of the body. A response
/// that has such fields goes out with exactly those, unchanged.
pub proof fn lemma_content_length_on_the_wire(r: ResponseView, date: Seq<u8>)
    ensures
        has_header(emitted_headers(r, date), content_length_name()),
        !has_header(r.headers, content_length_name()) ==> fields_named(
            emitted_headers(r, date),
            content_length_name(),
        ) == seq![length_field(r)],
        has_header(r.headers, content_length_name()) ==> fields_named(
            emitted_headers(r, date),
            content_length_name(),
        ) == fields_named(r.headers, content_length_name()),
{
    lemma_fields_on_the_wire(r, date);
}

/// A response without a `Date` field, in any case, goes out with exactly
/// one, whose value is the date given. A response that has such fields goes
/// out with exactly those, unchanged.
pub proof fn lemma_date_on_the_wire(r: ResponseView, date: Seq<u8>)
    ensures
        has_header(emitted_headers(r, date), date_name()),
        !has_header(r.headers, date_name()) ==> fields_named(
            emitted_headers(r, date),
            date_name(),
        ) == seq![date_field(date)],
        has_header(r.headers, date_name()) ==> fields_named(emitted_headers(r, date), date_name())
            == fields_named(r.headers, date_name()),
{
    lemma_fields_on_the_wire(r, date);
}

/// The fields of either injected name among the emitted ones.
proof fn lemma_fields_on_the_wire(r: ResponseView, date: Seq<u8>)
    ensures
        has_header(emitted_headers(r, date), content_length_name()),
        has_header(emitted_headers(r, date), date_name()),
        !has_header(r.headers, content_length_name()) ==> fields_named(
            emitted_headers(r, date),
            content_length_name(),
        ) == seq![length_field(r)],
        has_header(r.headers, content_length_name()) ==> fields_named(
            emitted_headers(r, date),
            content_length_name(),
        ) == fields_named(r.headers, content_length_name()),
        !has_header(r.headers, date_name()) ==> fields_named(
            emitted_headers(r, date),
            date_name(),
        ) == seq![date_field(date)],
        has_header(r.headers, date_name()) ==> fields_named(emitted_headers(r, date), date_name())
            == fields_named(r.headers, date_name()),
{
    lemma_injected_names();
    reveal(Seq::filter);
    let length_name = content_length_name();
    let stamp_name = date_name();
    let none = Seq::<HeaderView>::empty();
    let length = if has_header(r.headers, length_name) {
        none
    } else {
        seq![length_field(r)]
    };
    let stamp = if has_header(r.headers, stamp_name) {
        none
    } else {
        seq![date_field(date)]
    };
    let out = emitted_headers(r, date);
    assert(out == r.headers + (length + stamp));
    let is_length = |h: HeaderView| same_ignoring_case(h.name, length_name);
    let is_stamp = |h: HeaderView| same_ignoring_case(h.name, stamp_name);
    Seq::filter_distributes_over_add(r.headers, length + stamp, is_length);
    Seq::filter_distributes_over_add(length, stamp, is_length);
    Seq::filter_distributes_over_add(r.headers, length + stamp, is_stamp);
    Seq::filter_distributes_over_add(length, stamp, is_stamp);
    assert(none.filter(is_length) =~= none);
    assert(none.filter(is_stamp) =~= none);
    assert(seq![length_field(r)].drop_last() =~= none);
    assert(seq![date_field(date)].drop_last() =~= none);
    assert(seq![length_field(r)].filter(is_length) =~= seq![length_field(r)]);
    assert(seq![length_field(r)].filter(is_stamp) =~= none);
    assert(seq![date_field(date)].filter(is_stamp) =~= seq![date_field(date)]);
    assert(seq![date_field(date)].filter(is_length) =~= none);
    if has_header(r.headers, length_name) {
        let i = choose|i: int|
            0 <= i < r.headers.len() && same_ignoring_case(#[trigger] r.headers[i].name, length_name);
        assert(out[i] == r.headers[i]);
        assert(fields_named(out, length_name) =~= fields_named(r.headers, length_name));
    } else {
        lemma_none_named(r.headers, length_name);
        assert(out[r.headers.len() as int] == length_field(r));
        assert(fields_named(out, length_name) =~= seq![length_field(r)]);
    }
    if has_header(r.headers, stamp_name) {
        let i = choose|i: int|
            0 <= i < r.headers.len() && same_ignoring_case(#[trigger] r.headers[i].name, stamp_name);
        assert(out[i] == r.headers[i]);
        assert(fields_named(out, stamp_name) =~= fields_named(r.headers, stamp_name));
    } else {
        lemma_none_named(r.headers, stamp_name);
        assert(out[out.len() - 1] == date_field(date));
        assert(fields_named(out, stamp_name) =~= seq![date_field(date)]);
    }
}

/// No name and no value of `headers` holds a carriage return or a line feed.
pub open spec fn fields_line_safe(headers: Seq<HeaderView>) -> bool {
    forall|i: int|
        0 <= i < headers.len() ==> line_safe(#[trigger] headers[i].name) && line_safe(
            headers[i].value,
        )
}

/// The four bytes from `at` on are two line breaks in a row: the end of a
/// line and an empty line.
pub open spec fn blank_line_at(bytes: Seq<u8>, at: int) -> bool {
    &&& 0 <= at
    &&& at + 4 <= bytes.len()
    &&& bytes[at] == 13
    &&& bytes[at + 1] == 10
    &&& bytes[at + 2] == 13
    &&& bytes[at + 3] == 10
}

/// Lines that each end in a line break and hold none inside, none of them
/// empty: the bytes end in a line break, and no line feed but the last is
/// followed by a carriage return.
spec fn tidy(lines: Seq<u8>) -> bool {
    &&& lines.len() >= 2
    &&& lines[lines.len() - 2] == 13
    &&& lines[lines.len() - 1] == 10
    &&& forall|p: int| 0 <= p < lines.len() - 1 && #[trigger] lines[p] == 10 ==> lines[p + 1] != 13
}

/// One more line keeps lines tidy.
proof fn lemma_tidy_append(lines: Seq<u8>, content: Seq<u8>)
    requires
        lines.len() == 0 || tidy(lines),
        line_safe(content),
        content.len() > 0,
    ensures
        tidy(lines + content + crlf()),
{
    let out = lines + content + crlf();
    assert forall|p: int| 0 <= p < out.len() - 1 && #[trigger] out[p] == 10 implies out[p + 1]
        != 13 by {
        if p < lines.len() - 1 {
            assert(lines[p] == 10);
        } else if p == lines.len() - 1 {
            assert(out[p + 1] == content[0]);
        } else if p < lines.len() + content.len() {
            assert(out[p] == content[p - lines.len()]);
        }
    }
}

/// Header lines whose names and values hold no line break keep lines tidy.
proof fn lemma_block_tidy(lines: Seq<u8>, headers: Seq<HeaderView>)
    requires
        tidy(lines),
        fields_line_safe(headers),
    ensures
        tidy(lines + header_block(headers)),
    decreases headers.len(),
{
    if headers.len() == 0 {
        assert(lines + header_block(headers) =~= lines);
    } else {
        let front = headers.drop_last();
        let h = headers.last();
        assert forall|i: int| 0 <= i < front.len() implies line_safe(#[trigger] front[i].name)
            && line_safe(front[i].value) by {
            assert(front[i] == headers[i]);
        }
        lemma_block_tidy(lines, front);
        let content = h.name + separator() + h.value;
        assert(line_safe(h.name) && line_safe(h.value)) by {
            assert(h == headers[headers.len() - 1]);
        }
        lemma_tidy_append(lines + header_block(front), content);
        assert(lines + header_block(headers) =~= lines + header_block(front) + content + crlf());
    }
}

/// The head of a response ends at the first empty line of the output, and the
/// body is all that follows it. This holds whenever no header name, header
/// value, reason phrase or date holds a carriage return or a line feed; the
/// body may hold any bytes.
pub proof fn lemma_body_follows_first_blank_line(r: ResponseView, reason: Seq<u8>, date: Seq<u8>)
    requires
        fields_line_safe(r.headers),
        line_safe(reason),
        line_safe(date),
    ensures
        blank_line_at(wire(r, reason, date), head(r, reason, date).len() - 4),
        forall|at: int|
            0 <= at < head(r, reason, date).len() - 4 ==> !#[trigger] blank_line_at(
                wire(r, reason, date),
                at,
            ),
        wire(r, reason, date).skip(head(r, reason, date).len() as int) == r.body,
{
    reveal_strlit("HTTP/1.1 ");
    reveal_strlit("Content-Length");
    reveal_strlit("Date");
    lemma_decimal_digits(r.status as nat);
    lemma_decimal_digits(r.body.len());
    let first = version_prefix() + decimal(r.status as nat) + seq![32u8] + reason;
    lemma_tidy_append(Seq::empty(), first);
    assert(Seq::<u8>::empty() + first + crlf() =~= status_line(r.status, reason));
    let fields = emitted_headers(r, date);
    assert forall|i: int| 0 <= i < fields.len() implies line_safe(#[trigger] fields[i].name)
        && line_safe(fields[i].value) by {
        if i < r.headers.len() {
            assert(fields[i] == r.headers[i]);
        }
    }
    lemma_block_tidy(status_line(r.status, reason), fields);
    let lines = status_line(r.status, reason) + header_block(fields);
    let out = wire(r, reason, date);
    assert(head(r, reason, date) =~= lines + crlf());
    assert(out =~= lines + crlf() + r.body);
    assert(out.skip(head(r, reason, date).len() as int) =~= r.body);
    assert forall|at: int| 0 <= at < lines.len() - 2 implies !#[trigger] blank_line_at(
        out,
        at,
    ) by {
        if blank_line_at(out, at) {
            assert(lines[at + 1] == 10);
            assert(lines[at + 2] == 13);
        }
    }
}

} // verus!
