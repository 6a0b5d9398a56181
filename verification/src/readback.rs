//! Reading a serialized response back.
//!
//! Nothing here runs. `read_back` says, as a function on bytes, how a reader
//! of HTTP/1.1 takes a response apart: the head ends at the first empty line,
//! its lines end at line breaks, a header line splits at its first colon.
//! The law at the end states that this reading of a serialized response gives
//! back what was serialized.

use vstd::prelude::*;
use crate::response::{valid_status, HeaderView, ResponseView};
use crate::text::{decimal, digit_count, lemma_decimal_digits, line_safe};
use crate::wire::{
    blank_line_at, crlf, emitted_headers, fields_line_safe, head, header_block,
    lemma_body_follows_first_blank_line, separator, status_line, version_prefix, wire,
};

verus! {

/// What a reader finds in the bytes of a response.
pub struct Reading {
    pub status: nat,
    pub reason: Seq<u8>,
    pub fields: Seq<HeaderView>,
    pub body: Seq<u8>,
}

/// The index of the first empty line at or after `from`; the length of the
/// bytes where there is none.
pub open spec fn first_blank_line(bytes: Seq<u8>, from: int) -> int
    decreases bytes.len() - from,
{
    if from < 0 || from + 4 > bytes.len() {
        bytes.len() as int
    } else if blank_line_at(bytes, from) {
        from
    } else {
        first_blank_line(bytes, from + 1)
    }
}

/// Where the line that ends before `end` begins: right after the nearest
/// line feed before `end`, or at the start.
pub open spec fn line_start(bytes: Seq<u8>, end: int) -> int
    decreases end,
{
    if end <= 0 {
        0
    } else if bytes[end - 1] == 10 {
        end
    } else {
        line_start(bytes, end - 1)
    }
}

/// The lines of bytes that end in a line break, each without its line break.
pub open spec fn lines_of(bytes: Seq<u8>) -> Seq<Seq<u8>>
    decreases bytes.len(),
{
    if bytes.len() < 2 {
        Seq::empty()
    } else {
        let start = line_start(bytes, bytes.len() - 2);
        if 0 <= start <= bytes.len() - 2 {
            lines_of(bytes.take(start)).push(bytes.subrange(start, bytes.len() - 2))
        } else {
            Seq::empty()
        }
    }
}

/// The index of the first colon of a line; its length where it has none.
pub open spec fn index_of_colon(line: Seq<u8>) -> int
    decreases line.len(),
{
    if line.len() == 0 {
        0
    } else if line[0] == 58 {
        0
    } else {
        1 + index_of_colon(line.drop_first())
    }
}

/// The field of a header line: the name is what stands before the first
/// colon, the value what stands after the colon and the space behind it.
pub open spec fn field_of(line: Seq<u8>) -> HeaderView {
    let colon = index_of_colon(line);
    HeaderView { name: line.take(colon), value: line.skip(colon + 2) }
}

/// The number that decimal digits stand for.
pub open spec fn number_of(digits: Seq<u8>) -> nat
    decreases digits.len(),
{
    if digits.len() == 0 {
        0
    } else {
        number_of(digits.drop_last()) * 10 + (digits.last() - 48) as nat
    }
}

/// A response as a reader finds it in `bytes`: the head runs to the first
/// empty line and the body is all that follows; in the first line of the
/// head the status code stands after the version and the reason phrase after
/// the code; every further line is a header field.
pub open spec fn read_back(bytes: Seq<u8>) -> Reading {
    let end = first_blank_line(bytes, 0);
    let lines = lines_of(bytes.take(end + 2));
    Reading {
        status: number_of(lines[0].subrange(9, 12)),
        reason: lines[0].skip(13),
        fields: lines.skip(1).map_values(|line: Seq<u8>| field_of(line)),
        body: bytes.skip(end + 4),
    }
}

/// No header name holds a colon.
pub open spec fn names_without_colon(headers: Seq<HeaderView>) -> bool {
    forall|i: int|
        0 <= i < headers.len() ==> forall|j: int|
            0 <= j < (#[trigger] headers[i]).name.len() ==> headers[i].name[j] != 58
}

/// The digits of a number stand for that number.
pub proof fn lemma_number_of_decimal(n: nat)
    ensures
        number_of(decimal(n)) == n,
    decreases n,
{
    if n < 10 {
        assert(decimal(n).drop_last() =~= Seq::<u8>::empty());
        assert(number_of(decimal(n).drop_last()) == 0);
    } else {
        lemma_number_of_decimal(n / 10);
        assert(decimal(n).drop_last() =~= decimal(n / 10));
    }
}

/// A scan for the first empty line stops at an empty line that has none
/// before it.
proof fn lemma_first_blank_line(bytes: Seq<u8>, from: int, target: int)
    requires
        0 <= from <= target,
        blank_line_at(bytes, target),
        forall|at: int| 0 <= at < target ==> !#[trigger] blank_line_at(bytes, at),
    ensures
        first_blank_line(bytes, from) == target,
    decreases target - from,
{
    if from < target {
        lemma_first_blank_line(bytes, from + 1, target);
    }
}

/// A line without a line feed, behind bytes that are empty or end in a line
/// feed, starts where those bytes end.
proof fn lemma_line_start(before: Seq<u8>, content: Seq<u8>, after: Seq<u8>, end: int)
    requires
        before.len() == 0 || before.last() == 10,
        line_safe(content),
        before.len() <= end <= before.len() + content.len(),
    ensures
        line_start(before + content + after, end) == before.len(),
    decreases end,
{
    let all = before + content + after;
    if end > before.len() {
        assert(all[end - 1] == content[end - 1 - before.len()]);
        lemma_line_start(before, content, after, end - 1);
    } else if end > 0 {
        assert(all[end - 1] == before.last());
    }
}

/// One more line behind bytes that are empty or end in a line feed is one
/// more line read.
proof fn lemma_lines_of_append(before: Seq<u8>, content: Seq<u8>)
    requires
        before.len() == 0 || before.last() == 10,
        line_safe(content),
    ensures
        lines_of(before + content + crlf()) == lines_of(before).push(content),
{
    let all = before + content + crlf();
    lemma_line_start(before, content, crlf(), (before.len() + content.len()) as int);
    assert(all.take(before.len() as int) =~= before);
    assert(all.subrange(before.len() as int, all.len() - 2) =~= content);
}

/// The line of a header field without its line break.
pub open spec fn line_content(h: HeaderView) -> Seq<u8> {
    h.name + separator() + h.value
}

/// Header lines behind bytes that end in a line feed are read as one line
/// each, in order.
proof fn lemma_lines_of_block(before: Seq<u8>, headers: Seq<HeaderView>)
    requires
        before.len() > 0,
        before.last() == 10,
        fields_line_safe(headers),
    ensures
        lines_of(before + header_block(headers)) == lines_of(before) + headers.map_values(
            |h: HeaderView| line_content(h),
        ),
        (before + header_block(headers)).last() == 10,
    decreases headers.len(),
{
    let contents = headers.map_values(|h: HeaderView| line_content(h));
    if headers.len() == 0 {
        assert(before + header_block(headers) =~= before);
        assert(lines_of(before) + contents =~= lines_of(before));
    } else {
        let front = headers.drop_last();
        let h = headers.last();
        assert forall|i: int| 0 <= i < front.len() implies line_safe(#[trigger] front[i].name)
            && line_safe(front[i].value) by {
            assert(front[i] == headers[i]);
        }
        lemma_lines_of_block(before, front);
        let at = headers.len() - 1;
        assert(line_safe(headers[at].name) && line_safe(headers[at].value));
        assert(line_safe(line_content(h)));
        let so_far = before + header_block(front);
        lemma_lines_of_append(so_far, line_content(h));
        assert(before + header_block(headers) =~= so_far + line_content(h) + crlf());
        let front_contents = front.map_values(|h: HeaderView| line_content(h));
        assert(contents =~= front_contents.push(line_content(h)));
        assert(lines_of(before) + contents =~= (lines_of(before) + front_contents).push(
            line_content(h),
        ));
    }
}

/// The first colon of a header line stands right behind a name that holds
/// none.
proof fn lemma_index_of_colon(name: Seq<u8>, rest: Seq<u8>)
    requires
        forall|j: int| 0 <= j < name.len() ==> name[j] != 58,
    ensures
        index_of_colon(name + separator() + rest) == name.len(),
    decreases name.len(),
{
    let line = name + separator() + rest;
    if name.len() == 0 {
        assert(line[0] == separator()[0]);
    } else {
        assert(line[0] == name[0]);
        assert(line.drop_first() =~= name.drop_first() + separator() + rest);
        lemma_index_of_colon(name.drop_first(), rest);
    }
}

/// A header line whose name holds no colon is read as the field it was
/// written from.
pub proof fn lemma_field_of_line(h: HeaderView)
    requires
        forall|j: int| 0 <= j < h.name.len() ==> h.name[j] != 58,
    ensures
        field_of(line_content(h)) == h,
{
    lemma_index_of_colon(h.name, h.value);
    let line = line_content(h);
    assert(line.take(h.name.len() as int) =~= h.name);
    assert(line.skip(h.name.len() as int + 2) =~= h.value);
}

/// Round trip: reading the bytes of a serialized response gives back its
/// status code, the reason phrase written, every field that went out (the
/// response's own in their order, then the injected ones) and the body, byte
/// for byte. It holds for every response whose header names and values hold
/// no line break and whose header names hold no colon, written with a reason
/// phrase and a date that hold no line break; the body may hold any bytes.
pub proof fn lemma_round_trip(r: ResponseView, reason: Seq<u8>, date: Seq<u8>)
    requires
        valid_status(r.status),
        fields_line_safe(r.headers),
        names_without_colon(r.headers),
        line_safe(reason),
        line_safe(date),
    ensures
        read_back(wire(r, reason, date)) == (Reading {
            status: r.status as nat,
            reason,
            fields: emitted_headers(r, date),
            body: r.body,
        }),
{
    reveal_strlit("HTTP/1.1 ");
    reveal_strlit("Content-Length");
    reveal_strlit("Date");
    let out = wire(r, reason, date);
    let fields = emitted_headers(r, date);
    let first = version_prefix() + decimal(r.status as nat) + seq![32u8] + reason;
    let top = status_line(r.status, reason);
    let lines = top + header_block(fields);
    let end = head(r, reason, date).len() - 4;

    lemma_body_follows_first_blank_line(r, reason, date);
    lemma_first_blank_line(out, 0, end);
    assert(out.take(end + 2) =~= lines);
    assert(out.skip(end + 4) =~= r.body);

    lemma_decimal_digits(r.status as nat);
    lemma_decimal_digits(r.body.len());
    reveal_with_fuel(digit_count, 4);
    assert(line_safe(first));
    lemma_lines_of_append(Seq::empty(), first);
    assert(Seq::<u8>::empty() + first + crlf() =~= top);
    assert(lines_of(Seq::<u8>::empty()) =~= Seq::<Seq<u8>>::empty());
    assert(lines_of(top) =~= seq![first]);

    assert forall|i: int| 0 <= i < fields.len() implies line_safe(#[trigger] fields[i].name)
        && line_safe(fields[i].value) && (forall|j: int|
        0 <= j < fields[i].name.len() ==> fields[i].name[j] != 58) by {
        if i < r.headers.len() {
            assert(fields[i] == r.headers[i]);
        }
    }
    lemma_lines_of_block(top, fields);
    let contents = fields.map_values(|h: HeaderView| line_content(h));
    let read = lines_of(lines);
    assert(read =~= seq![first] + contents);
    assert(read[0] == first);
    assert(first.subrange(9, 12) =~= decimal(r.status as nat));
    lemma_number_of_decimal(r.status as nat);
    assert(first.skip(13) =~= reason);
    let found = read.skip(1).map_values(|line: Seq<u8>| field_of(line));
    assert(read.skip(1) =~= contents);
    assert forall|i: int| 0 <= i < fields.len() implies found[i] == fields[i] by {
        assert(contents[i] == line_content(fields[i]));
        lemma_field_of_line(fields[i]);
    }
    assert(found =~= fields);
}

} // verus!
