//! The response value that handlers build and the serializer renders.

use vstd::prelude::*;
use crate::text::{eq_ignore_case, same_ignoring_case};

verus! {

/// One header field, borrowed from whoever supplied it.
#[derive(Clone, Copy, Debug)]
pub struct Header<'a> {
    pub name: &'a [u8],
    pub value: &'a [u8],
}

/// A header field as a pair of byte strings.
pub struct HeaderView {
    pub name: Seq<u8>,
    pub value: Seq<u8>,
}

impl<'a> View for Header<'a> {
    type V = HeaderView;

    open spec fn view(&self) -> HeaderView {
        HeaderView { name: self.name@, value: self.value@ }
    }
}

/// A response as plain data: status code, header fields in the order they
/// were added, and body bytes.
pub struct ResponseView {
    pub status: u16,
    pub headers: Seq<HeaderView>,
    pub body: Seq<u8>,
}

/// Whether some field of `headers` is named `name`, ignoring ASCII case.
pub open spec fn has_header(headers: Seq<HeaderView>, name: Seq<u8>) -> bool {
    exists|i: int| 0 <= i < headers.len() && same_ignoring_case(#[trigger] headers[i].name, name)
}

/// The fields of `headers` named `name`, ignoring ASCII case, in order.
pub open spec fn fields_named(headers: Seq<HeaderView>, name: Seq<u8>) -> Seq<HeaderView> {
    headers.filter(|h: HeaderView| same_ignoring_case(h.name, name))
}

/// The views of a run of header fields.
pub open spec fn header_views(headers: Seq<Header<'_>>) -> Seq<HeaderView> {
    headers.map_values(|h: Header| h@)
}

/// Status codes run from 100 to 999.
pub open spec fn valid_status(status: u16) -> bool {
    100 <= status <= 999
}

/// A status code, header fields and a borrowed body. Built once per request.
#[derive(Debug)]
pub struct Response<'a> {
    status: u16,
    headers: Vec<Header<'a>>,
    body: &'a [u8],
}

impl<'a> View for Response<'a> {
    type V = ResponseView;

    closed spec fn view(&self) -> ResponseView {
        ResponseView {
            status: self.status,
            headers: header_views(self.headers@),
            body: self.body@,
        }
    }
}

impl<'a> Response<'a> {
    #[verifier::type_invariant]
    spec fn status_in_range(self) -> bool {
        valid_status(self.status)
    }

    /// A response with the given status and body and no header fields; `None`
    /// when the status is not a three-digit code.
    pub fn new(status: u16, body: &'a [u8]) -> (made: Option<Response<'a>>)
        ensures
            made.is_some() == valid_status(status),
            made matches Some(r) ==> r@ == (ResponseView {
                status,
                headers: Seq::<HeaderView>::empty(),
                body: body@,
            }),
    {
        if status < 100 || status > 999 {
            return None;
        }
        let r = Response { status, headers: Vec::new(), body };
        assert(r@.headers =~= Seq::<HeaderView>::empty());
        Some(r)
    }

    /// The same response with one more header field at the end.
    pub fn with_header(self, name: &'a [u8], value: &'a [u8]) -> (r: Response<'a>)
        ensures
            r@ == (ResponseView {
                headers: self@.headers.push(HeaderView { name: name@, value: value@ }),
                ..self@
            }),
    {
        proof {
            use_type_invariant(&self);
        }
        let Response { status, headers, body } = self;
        let mut headers = headers;
        let ghost before = headers@;
        headers.push(Header { name, value });
        let r = Response { status, headers, body };
        assert(r@.headers =~= header_views(before).push(HeaderView { name: name@, value: value@ }));
        r
    }

    /// The status code.
    pub fn status(&self) -> (status: u16)
        ensures
            status == self@.status,
            valid_status(status),
    {
        proof {
            use_type_invariant(self);
        }
        self.status
    }

    /// The body bytes.
    pub fn body(&self) -> (body: &'a [u8])
        ensures
            body@ == self@.body,
    {
        self.body
    }

    /// The header fields, in the order they were added.
    pub fn headers(&self) -> (headers: &[Header<'a>])
        ensures
            header_views(headers@) == self@.headers,
    {
        self.headers.as_slice()
    }

    /// Whether a header field named `name` is present, ignoring ASCII case.
    pub fn contains_header(&self, name: &[u8]) -> (found: bool)
        ensures
            found == has_header(self@.headers, name@),
    {
        let mut i: usize = 0;
        while i < self.headers.len()
            invariant
                i <= self.headers@.len(),
                forall|j: int|
                    0 <= j < i ==> !same_ignoring_case(
                        #[trigger] header_views(self.headers@)[j].name,
                        name@,
                    ),
            decreases self.headers@.len() - i,
        {
            if eq_ignore_case(self.headers[i].name, name) {
                assert(same_ignoring_case(header_views(self.headers@)[i as int].name, name@));
                return true;
            }
            i += 1;
        }
        false
    }

    /// The value of the first header field named `name`, ignoring ASCII case.
    pub fn header(&self, name: &[u8]) -> (value: Option<&'a [u8]>)
        ensures
            value.is_some() == has_header(self@.headers, name@),
            value matches Some(v) ==> fields_named(self@.headers, name@).len() > 0
                && v@ == fields_named(self@.headers, name@)[0].value,
    {
        let mut i: usize = 0;
        while i < self.headers.len()
            invariant
                i <= self.headers@.len(),
                forall|j: int|
                    0 <= j < i ==> !same_ignoring_case(
                        #[trigger] header_views(self.headers@)[j].name,
                        name@,
                    ),
            decreases self.headers@.len() - i,
        {
            if eq_ignore_case(self.headers[i].name, name) {
                proof {
                    let all = header_views(self.headers@);
                    assert(same_ignoring_case(all[i as int].name, name@));
                    lemma_first_named(all, name@, i as int);
                }
                return Some(self.headers[i].value);
            }
            i += 1;
        }
        None
    }
}

/// When `headers[at]` is the first field named `name`, it heads
/// `fields_named(headers, name)`.
pub proof fn lemma_first_named(headers: Seq<HeaderView>, name: Seq<u8>, at: int)
    requires
        0 <= at < headers.len(),
        same_ignoring_case(headers[at].name, name),
        forall|j: int| 0 <= j < at ==> !same_ignoring_case(#[trigger] headers[j].name, name),
    ensures
        fields_named(headers, name).len() > 0,
        fields_named(headers, name)[0] == headers[at],
    decreases headers.len(),
{
    let pred = |h: HeaderView| same_ignoring_case(h.name, name);
    reveal(Seq::filter);
    if at == headers.len() - 1 {
        let front = headers.drop_last();
        assert(front.filter(pred).len() == 0) by {
            lemma_none_named(front, name);
        }
        assert(headers.filter(pred) =~= front.filter(pred).push(headers.last()));
    } else {
        lemma_first_named(headers.drop_last(), name, at);
    }
}

/// No field named `name` means `fields_named` is empty.
pub proof fn lemma_none_named(headers: Seq<HeaderView>, name: Seq<u8>)
    requires
        forall|j: int| 0 <= j < headers.len() ==> !same_ignoring_case(#[trigger] headers[j].name, name),
    ensures
        fields_named(headers, name).len() == 0,
    decreases headers.len(),
{
    reveal(Seq::filter);
    if headers.len() > 0 {
        lemma_none_named(headers.drop_last(), name);
    }
}

} // verus!
