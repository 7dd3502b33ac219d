//! The HTTP/1.1 response that the server sends: a status code, header fields
//! grouped by name in the order they were first added, and a body; how it is
//! built, and its byte form on the wire.

use vstd::prelude::*;

use crate::text::{append_bytes, ascii, lower, visible};

verus! {

/// The reason phrase that the `http` crate registers for a status code
/// (`StatusCode::canonical_reason`), as bytes.
pub uninterp spec fn canonical_reason(code: u16) -> Option<Seq<u8>>;

/// A byte that `http` accepts in a header name (its `HEADER_CHARS` table
/// maps it to a non-zero byte): a letter, a digit, or one of
/// ``!#$%&'*+-.^_`|~``.
pub open spec fn header_token_byte(b: u8) -> bool {
    ||| 65 <= b <= 90
    ||| 97 <= b <= 122
    ||| 48 <= b <= 57
    ||| b == 33 || (35 <= b <= 39) || b == 42 || b == 43 || b == 45 || b == 46
    ||| b == 94 || b == 95 || b == 96 || b == 124 || b == 126
}

/// A header name that `http` accepts: 1 to 65535 bytes, each a token byte.
pub open spec fn header_token(name: Seq<u8>) -> bool {
    1 <= name.len() <= 65535 && forall|i: int|
        0 <= i < name.len() ==> header_token_byte(#[trigger] name[i])
}

/// A byte that `http` accepts in a header value: anything from the space
/// on but DEL, and the horizontal tab.
pub open spec fn value_byte(b: u8) -> bool {
    (32 <= b && b != 127) || b == 9
}

/// A header value that `http` accepts.
pub open spec fn valid_value(v: Seq<u8>) -> bool {
    forall|i: int| 0 <= i < v.len() ==> value_byte(#[trigger] v[i])
}

/// Calls `http::StatusCode::from_u16` and then `canonical_reason` on the
/// status code. The contract claims that the result is the registered
/// reason phrase of `code`, `None` where `http` refuses the code or
/// registers none, and that the phrases of 200 and 404 are `OK` and
/// `Not Found`, as the crate's table shows.
#[verifier::external_body]
pub(crate) fn reason_phrase(code: u16) -> (r: Option<Vec<u8>>)
    ensures
        r.is_some() ==> canonical_reason(code) == Some(r.unwrap()@),
        r.is_none() ==> canonical_reason(code).is_none(),
        code == 200 ==> r.is_some() && r.unwrap()@ == ascii("OK"@),
        code == 404 ==> r.is_some() && r.unwrap()@ == ascii("Not Found"@),
{
    match http::StatusCode::from_u16(code) {
        Ok(status) => status.canonical_reason().map(|p| p.as_bytes().to_vec()),
        Err(_) => None,
    }
}

/// Calls `http::HeaderName::from_bytes` and reads the name back with
/// `as_str`. The contract claims what the crate's `HEADER_CHARS` table and
/// length bounds show: a name of 1 to 65535 token bytes is accepted and
/// stored with its ASCII letters lower-cased, any other name is refused.
#[verifier::external_body]
fn header_name(name: &[u8]) -> (r: Option<Vec<u8>>)
    ensures
        header_token(name@) ==> r.is_some() && r.unwrap()@ == lower(name@),
        !header_token(name@) ==> r.is_none(),
{
    match http::HeaderName::from_bytes(name) {
        Ok(n) => Some(n.as_str().as_bytes().to_vec()),
        Err(_) => None,
    }
}

/// Why a response could not be built.
#[derive(Debug, Clone, Copy, PartialEq, Eq)]
pub enum HttpError {
    /// The status code is outside 100 to 999.
    InvalidStatusCode,
    /// `http` refuses the header name.
    InvalidHeaderName,
    /// `http` refuses the header value.
    InvalidHeaderValue,
}

/// One header name with the values given for it, in the order given.
pub struct HeaderField {
    name: Vec<u8>,
    values: Vec<Vec<u8>>,
}

impl View for HeaderField {
    type V = (Seq<u8>, Seq<Seq<u8>>);

    closed spec fn view(&self) -> (Seq<u8>, Seq<Seq<u8>>) {
        (self.name@, self.values@.map_values(|v: Vec<u8>| v@))
    }
}

/// What a response is: its status code, its header fields, its body.
pub struct ResponseView {
    pub status: u16,
    pub headers: Seq<(Seq<u8>, Seq<Seq<u8>>)>,
    pub body: Seq<u8>,
}

/// The fields of a header map: names pairwise distinct, each with at least
/// one value.
pub open spec fn fields_wf(h: Seq<(Seq<u8>, Seq<Seq<u8>>)>) -> bool {
    &&& forall|i: int, j: int| 0 <= i < j < h.len() ==> h[i].0 != h[j].0
    &&& forall|i: int| 0 <= i < h.len() ==> (#[trigger] h[i]).1.len() >= 1
}

/// Every header value of the fields is one that `http` accepts.
pub open spec fn fields_valid(h: Seq<(Seq<u8>, Seq<Seq<u8>>)>) -> bool {
    forall|i: int, k: int|
        0 <= i < h.len() && 0 <= k < h[i].1.len() ==> valid_value(#[trigger] h[i].1[k])
}

/// Every header value of the fields is shown as text.
pub open spec fn fields_visible(h: Seq<(Seq<u8>, Seq<Seq<u8>>)>) -> bool {
    forall|i: int, k: int|
        0 <= i < h.len() && 0 <= k < h[i].1.len() ==> visible(#[trigger] h[i].1[k])
}

/// What a well-formed response holds: a status code and header values that
/// `http` accepts, in a header map.
pub open spec fn response_wf(r: ResponseView) -> bool {
    100 <= r.status <= 999 && fields_wf(r.headers) && fields_valid(r.headers)
}

/// The header map after one more value for `name`: appended to the values
/// of that name where it is present, else a new field at the end.
pub open spec fn add_field(h: Seq<(Seq<u8>, Seq<Seq<u8>>)>, name: Seq<u8>, value: Seq<u8>) -> Seq<
    (Seq<u8>, Seq<Seq<u8>>),
> {
    if exists|i: int| 0 <= i < h.len() && (#[trigger] h[i]).0 == name {
        let i = choose|i: int| 0 <= i < h.len() && (#[trigger] h[i]).0 == name;
        h.update(i, (name, h[i].1.push(value)))
    } else {
        h.push((name, seq![value]))
    }
}

/// An HTTP/1.1 response with a byte body.
pub struct Response {
    status: u16,
    headers: Vec<HeaderField>,
    body: Vec<u8>,
}

impl View for Response {
    type V = ResponseView;

    closed spec fn view(&self) -> ResponseView {
        ResponseView {
            status: self.status,
            headers: self.headers@.map_values(|f: HeaderField| f@),
            body: self.body@,
        }
    }
}

impl Response {
    #[verifier::type_invariant]
    closed spec fn wf(self) -> bool {
        response_wf(self@)
    }

    /// The status code.
    pub fn status(&self) -> (r: u16)
        ensures
            r == self@.status,
            100 <= r <= 999,
    {
        proof {
            use_type_invariant(self);
        }
        self.status
    }

    /// The body.
    pub fn body(&self) -> (r: &Vec<u8>)
        ensures
            r@ == self@.body,
    {
        &self.body
    }

    /// The values given for a header name (already in the form that `http`
    /// stores, lower-case), in the order given; empty where the name is absent.
    pub fn header_values(&self, name: &[u8]) -> (r: Vec<Vec<u8>>)
        ensures
            (exists|i: int| 0 <= i < self@.headers.len() && (#[trigger] self@.headers[i]).0 == name@)
                ==> exists|i: int|
                0 <= i < self@.headers.len() && (#[trigger] self@.headers[i]).0 == name@
                    && r@.map_values(|v: Vec<u8>| v@) == self@.headers[i].1,
            (forall|i: int| 0 <= i < self@.headers.len() ==> (#[trigger] self@.headers[i]).0 != name@)
                ==> r@.len() == 0,
    {
        let mut i: usize = 0;
        while i < self.headers.len()
            invariant
                0 <= i <= self.headers@.len(),
                forall|j: int| 0 <= j < i ==> (#[trigger] self@.headers[j]).0 != name@,
                self@.headers.len() == self.headers@.len(),
                forall|j: int|
                    0 <= j < self.headers@.len() ==> #[trigger] self@.headers[j]
                        == self.headers@[j]@,
            decreases self.headers@.len() - i,
        {
            if crate::text::bytes_eq(self.headers[i].name.as_slice(), name) {
                let values = clone_values(&self.headers[i].values);
                assert(values@.map_values(|v: Vec<u8>| v@) =~= self@.headers[i as int].1);
                return values;
            }
            i = i + 1;
        }
        Vec::new()
    }
}

impl HeaderField {
    /// The name, as `http` stores it.
    pub fn name(&self) -> (r: &Vec<u8>)
        ensures
            r@ == self@.0,
    {
        &self.name
    }

    /// The values, in the order given.
    pub fn values(&self) -> (r: &Vec<Vec<u8>>)
        ensures
            r@.map_values(|v: Vec<u8>| v@) == self@.1,
    {
        &self.values
    }
}

impl Response {
    /// The header fields, in the order their names were first given.
    pub fn fields(&self) -> (r: &Vec<HeaderField>)
        ensures
            r@.map_values(|f: HeaderField| f@) == self@.headers,
            response_wf(self@),
    {
        proof {
            use_type_invariant(self);
        }
        &self.headers
    }
}

/// What a response builder holds: the status and header map so far, or the
/// first error met.
pub type BuilderView = Result<(u16, Seq<(Seq<u8>, Seq<Seq<u8>>)>), HttpError>;

/// The builder after `status(code)`: the code is kept where `http` accepts it
/// (100 to 999), else the builder fails; a failed builder stays failed.
pub open spec fn after_status(b: BuilderView, code: u16) -> BuilderView {
    match b {
        Err(e) => Err(e),
        Ok((_, h)) => if 100 <= code <= 999 {
            Ok((code, h))
        } else {
            Err(HttpError::InvalidStatusCode)
        },
    }
}

/// The builder after `header(name, value)`: the value is added under the
/// name as `http` stores it (lower-cased), or the builder fails where `http`
/// refuses the name or else the value; a failed builder stays failed.
pub open spec fn after_header(b: BuilderView, name: Seq<u8>, value: Seq<u8>) -> BuilderView {
    match b {
        Err(e) => Err(e),
        Ok((s, h)) => if !header_token(name) {
            Err(HttpError::InvalidHeaderName)
        } else if !valid_value(value) {
            Err(HttpError::InvalidHeaderValue)
        } else {
            Ok((s, add_field(h, lower(name), value)))
        },
    }
}

/// The most names that a builder takes: from 6554 names on, `http`'s header
/// map may refuse to grow, depending on how the names hash.
pub const MAX_FIELDS: usize = 6553;

/// Builds a response step by step, as `http::response::Builder` does.
pub struct ResponseBuilder {
    status: u16,
    headers: Vec<HeaderField>,
    error: Option<HttpError>,
}

impl View for ResponseBuilder {
    type V = BuilderView;

    closed spec fn view(&self) -> BuilderView {
        match self.error {
            Some(e) => Err(e),
            None => Ok((self.status, self.headers@.map_values(|f: HeaderField| f@))),
        }
    }
}

impl ResponseBuilder {
    #[verifier::type_invariant]
    closed spec fn wf(self) -> bool {
        self.error is None ==> response_wf(
            ResponseView {
                status: self.status,
                headers: self.headers@.map_values(|f: HeaderField| f@),
                body: seq![],
            },
        )
    }

    /// A builder with status 200 and no header.
    pub fn new() -> (r: Self)
        ensures
            r@ == BuilderView::Ok((200u16, Seq::<(Seq<u8>, Seq<Seq<u8>>)>::empty())),
    {
        let r = ResponseBuilder { status: 200, headers: Vec::new(), error: None };
        assert(r.headers@.map_values(|f: HeaderField| f@) =~= Seq::<
            (Seq<u8>, Seq<Seq<u8>>),
        >::empty());
        r
    }

    /// Sets the status code.
    pub fn status(self, code: u16) -> (r: Self)
        ensures
            r@ == after_status(self@, code),
    {
        proof {
            use_type_invariant(&self);
        }
        if self.error.is_some() {
            return self;
        }
        let ResponseBuilder { status, headers, error } = self;
        if 100 <= code && code <= 999 {
            ResponseBuilder { status: code, headers, error: None }
        } else {
            ResponseBuilder { status, headers, error: Some(HttpError::InvalidStatusCode) }
        }
    }

    /// Adds a header value under a name.
    pub fn header(self, name: &[u8], value: Vec<u8>) -> (r: Self)
        requires
            self@ matches Ok((_, h)) ==> h.len() < MAX_FIELDS,
        ensures
            r@ == after_header(self@, name@, value@),
            r@ matches Ok((_, h)) ==> h.len() <= self@->Ok_0.1.len() + 1,
    {
        proof {
            use_type_invariant(&self);
        }
        if self.error.is_some() {
            return self;
        }
        let ghost pre = self@;
        let ResponseBuilder { status, headers, error } = self;
        let ghost h = headers@.map_values(|f: HeaderField| f@);
        assert(pre == BuilderView::Ok((status, h)));
        let stored = match header_name(name) {
            Some(n) => n,
            None => {
                return ResponseBuilder {
                    status,
                    headers,
                    error: Some(HttpError::InvalidHeaderName),
                };
            },
        };
        if !valid_header_value(value.as_slice()) {
            return ResponseBuilder { status, headers, error: Some(HttpError::InvalidHeaderValue) };
        }
        let mut headers = headers;
        let mut i: usize = 0;
        while i < headers.len()
            invariant
                0 <= i <= headers@.len(),
                headers@.map_values(|f: HeaderField| f@) == h,
                forall|j: int| 0 <= j < i ==> (#[trigger] h[j]).0 != stored@,
                fields_wf(h),
                fields_valid(h),
                valid_value(value@),
                pre == BuilderView::Ok((status, h)),
                self@ == pre,
                header_token(name@),
                stored@ == lower(name@),
                100 <= status <= 999,
            decreases headers@.len() - i,
        {
            if crate::text::bytes_eq(headers[i].name.as_slice(), stored.as_slice()) {
                let mut values = clone_values(&headers[i].values);
                let ghost old_values = values@;
                values.push(value);
                let name_copy = clone_bytes(&stored);
                let field = HeaderField { name: name_copy, values };
                assert(field@.1 =~= h[i as int].1.push(value@)) by {
                    assert(values@ == old_values.push(value));
                }
                headers.set(i, field);
                let ghost rh = add_field(h, stored@, value@);
                proof {
                    let k = choose|k: int| 0 <= k < h.len() && (#[trigger] h[k]).0 == stored@;
                    assert(h[i as int].0 == stored@);
                    assert(k == i as int);
                    assert(headers@.map_values(|f: HeaderField| f@) =~= rh);
                    assert(rh.len() == h.len());
                    assert forall|a: int| 0 <= a < rh.len() implies (#[trigger] rh[a]).0 == h[a].0
                        && rh[a].1.len() >= 1 by {}
                    assert forall|a: int, k: int|
                        0 <= a < rh.len() && 0 <= k < rh[a].1.len() implies valid_value(
                        #[trigger] rh[a].1[k],
                    ) by {
                        if a == i as int && k == rh[a].1.len() - 1 {
                        } else {
                            assert(rh[a].1[k] == h[a].1[k]);
                        }
                    }
                }
                return ResponseBuilder { status, headers, error: None };
            }
            i = i + 1;
        }
        let mut values: Vec<Vec<u8>> = Vec::new();
        values.push(value);
        let field = HeaderField { name: stored, values };
        assert(field@.1 =~= seq![value@]);
        headers.push(field);
        let ghost rh = add_field(h, lower(name@), value@);
        proof {
            assert(!(exists|k: int| 0 <= k < h.len() && (#[trigger] h[k]).0 == lower(name@)));
            assert(rh =~= h.push((lower(name@), seq![value@])));
            assert(headers@.map_values(|f: HeaderField| f@) =~= rh);
            assert forall|a: int| 0 <= a < rh.len() implies (#[trigger] rh[a]).1.len() >= 1 by {
                if a < h.len() {
                    assert(rh[a] == h[a]);
                }
            }
            assert forall|a: int, k: int|
                0 <= a < rh.len() && 0 <= k < rh[a].1.len() implies valid_value(
                #[trigger] rh[a].1[k],
            ) by {
                if a < h.len() {
                    assert(rh[a] == h[a]);
                }
            }
        }
        ResponseBuilder { status, headers, error: None }
    }

    /// Finishes the response with a body, or gives the first error met.
    pub fn body(self, body: Vec<u8>) -> (r: Result<Response, HttpError>)
        ensures
            match self@ {
                Err(e) => r == Err::<Response, HttpError>(e),
                Ok((s, h)) => r matches Ok(resp) && resp@ == ResponseView {
                    status: s,
                    headers: h,
                    body: body@,
                },
            },
    {
        proof {
            use_type_invariant(&self);
        }
        let ResponseBuilder { status, headers, error } = self;
        match error {
            Some(e) => Err(e),
            None => Ok(Response { status, headers, body }),
        }
    }
}

/// Whether `http` accepts a header value.
fn valid_header_value(v: &[u8]) -> (r: bool)
    ensures
        r == valid_value(v@),
{
    let mut i: usize = 0;
    while i < v.len()
        invariant
            0 <= i <= v@.len(),
            forall|j: int| 0 <= j < i ==> value_byte(#[trigger] v@[j]),
        decreases v@.len() - i,
    {
        let b = v[i];
        if !((32 <= b && b != 127) || b == 9) {
            assert(!value_byte(v@[i as int]));
            return false;
        }
        i = i + 1;
    }
    true
}

/// A copy of a byte string.
fn clone_bytes(b: &Vec<u8>) -> (r: Vec<u8>)
    ensures
        r@ == b@,
{
    let mut r: Vec<u8> = Vec::new();
    append_bytes(&mut r, b.as_slice());
    assert(r@ =~= b@);
    r
}

/// A copy of a list of byte strings.
fn clone_values(values: &Vec<Vec<u8>>) -> (r: Vec<Vec<u8>>)
    ensures
        r@.map_values(|v: Vec<u8>| v@) == values@.map_values(|v: Vec<u8>| v@),
{
    let mut r: Vec<Vec<u8>> = Vec::new();
    let mut i: usize = 0;
    while i < values.len()
        invariant
            0 <= i <= values@.len(),
            r@.len() == i,
            forall|j: int| 0 <= j < i ==> (#[trigger] r@[j])@ == values@[j]@,
        decreases values@.len() - i,
    {
        let mut v: Vec<u8> = Vec::new();
        append_bytes(&mut v, values[i].as_slice());
        r.push(v);
        i = i + 1;
    }
    assert(r@.map_values(|v: Vec<u8>| v@) =~= values@.map_values(|v: Vec<u8>| v@));
    r
}

} // verus!
