//! Reading a request and answering it: the request head gathered from the
//! connection, the path it asks for, the response chosen for that path, and
//! the bytes of that response.

use vstd::prelude::*;
use vstd::string::is_ascii;
use vstd::utf8::{encode_utf8, is_char_boundary};

use crate::file_tree::{lookup, read_out, FileTree, FilesView};
use crate::html_parse::{index_page, join_index, NOT_FOUND_BODY};
use crate::response::{
    canonical_reason, fields_visible, header_token, reason_phrase, valid_value, HttpError, Response, ResponseBuilder, ResponseView,
};
use crate::text::{
    append_bytes, ascii, bytes_eq, decimal, decimal_bytes, literal_bytes, lower, visible,
};

verus! {

broadcast use vstd::string::is_ascii_spec_bytes;

/// What `httparse` reads as the request target (`Request::path`) from the
/// start of a request, with room for `max_headers` header lines.
pub uninterp spec fn request_target(bytes: Seq<u8>, max_headers: usize) -> Option<Seq<char>>;

/// The path of the URI that `http` parses from a request target
/// (`Uri::try_from(&str)`, then `Uri::path`); `None` where it refuses the
/// target.
pub uninterp spec fn uri_path(target: Seq<char>) -> Option<Seq<char>>;

/// Parses the start of a request with `httparse::Request::parse` and hands
/// back the target it read, whether or not the whole head parsed. The
/// contract claims only that the result is `httparse`'s reading of these
/// bytes with this many header slots.
#[verifier::external_body]
fn parse_request_target(bytes: &[u8], max_headers: usize) -> (r: Option<String>)
    ensures
        r.is_some() ==> request_target(bytes@, max_headers) == Some(r.unwrap()@),
        r.is_none() ==> request_target(bytes@, max_headers).is_none(),
{
    let mut headers = vec![httparse::EMPTY_HEADER; max_headers];
    let mut req = httparse::Request::new(&mut headers);
    let _ = req.parse(bytes);
    req.path.map(|p| p.to_string())
}

/// Parses a request target with `http::Uri::try_from` and hands back its
/// path (`Uri::path`). The contract claims only that the result is what
/// `http` makes of this target.
#[verifier::external_body]
fn parse_uri_path(target: &str) -> (r: Option<String>)
    ensures
        r.is_some() ==> uri_path(target@) == Some(r.unwrap()@),
        r.is_none() ==> uri_path(target@).is_none(),
{
    match http::Uri::try_from(target) {
        Ok(uri) => Some(uri.path().to_string()),
        Err(_) => None,
    }
}

/// How many header lines the request parser makes room for.
pub const MAX_HEADERS: usize = 16;

/// Why a request head with a target gave no request.
#[derive(Debug, Clone, Copy, PartialEq, Eq)]
pub enum RequestError {
    /// `http` refused the request target as a URI.
    InvalidUri,
}

/// A request, reduced to what the server reads of it: the URI path.
pub struct Request {
    path: String,
}

impl Request {
    /// The URI path.
    pub closed spec fn spec_path(&self) -> Seq<char> {
        self.path@
    }

    /// The URI path.
    pub fn path(&self) -> (r: &str)
        ensures
            r@ == self.spec_path(),
    {
        self.path.as_str()
    }
}

/// Whether `httparse` finds a request target in `bytes`.
pub fn has_request_target(bytes: &[u8]) -> (r: bool)
    ensures
        r == request_target(bytes@, MAX_HEADERS).is_some(),
{
    parse_request_target(bytes, MAX_HEADERS).is_some()
}

/// The path that a request head asks for, as `httparse` and `http` read it;
/// `None` where there is no target or the target is no URI.
pub open spec fn requested_path(head: Seq<u8>) -> Option<Seq<char>> {
    match request_target(head, MAX_HEADERS) {
        None => None,
        Some(t) => uri_path(t),
    }
}

/// A request read from the bytes of its head.
pub trait DeserializeRequset: Sized {
    /// Whether `bytes` hold a request target.
    spec fn readable(bytes: Seq<u8>) -> bool;

    /// Whether `r` is what reading `bytes` gives.
    spec fn read_as(bytes: Seq<u8>, r: Result<Self, RequestError>) -> bool;

    /// Reads a request from the bytes of a head that holds a request target.
    fn from_byte(bytes: &[u8]) -> (r: Result<Self, RequestError>)
        requires
            Self::readable(bytes@),
        ensures
            Self::read_as(bytes@, r),
    ;
}

impl DeserializeRequset for Request {
    open spec fn readable(bytes: Seq<u8>) -> bool {
        request_target(bytes, MAX_HEADERS).is_some()
    }

    open spec fn read_as(bytes: Seq<u8>, r: Result<Request, RequestError>) -> bool {
        match requested_path(bytes) {
            None => r == Err::<Request, RequestError>(RequestError::InvalidUri),
            Some(p) => r matches Ok(req) && req.spec_path() == p,
        }
    }

    /// Reads a request from its head: the request target that `httparse`
    /// finds, then the path of that target as a URI.
    fn from_byte(bytes: &[u8]) -> (r: Result<Request, RequestError>) {
        let target = match parse_request_target(bytes, MAX_HEADERS) {
            Some(t) => t,
            None => {
                proof {
                    assert(false);
                }
                return Err(RequestError::InvalidUri);
            },
        };
        match parse_uri_path(target.as_str()) {
            Some(path) => Ok(Request { path }),
            None => Err(RequestError::InvalidUri),
        }
    }
}

// ---------------------------------------------------------------------------
// Responses chosen for a path

/// The stored header name of `Connection`.
pub open spec fn connection_name() -> Seq<u8> {
    ascii("connection"@)
}

/// The stored header name of `Content-Length`.
pub open spec fn content_length_name() -> Seq<u8> {
    ascii("content-length"@)
}

/// A 200 response that closes the connection and carries `body`.
pub open spec fn ok_response(body: Seq<u8>) -> ResponseView {
    ResponseView {
        status: 200,
        headers: seq![
            (connection_name(), seq![ascii("close"@)]),
            (content_length_name(), seq![decimal(body.len())]),
        ],
        body,
    }
}

/// The answer to a request for the icon: 404, closing, empty.
pub open spec fn favicon_response() -> ResponseView {
    ResponseView {
        status: 404,
        headers: seq![
            (connection_name(), seq![ascii("close"@)]),
            (content_length_name(), seq![decimal(0)]),
        ],
        body: seq![],
    }
}

/// The answer for a file that is not there: 404 with the not-found page.
pub open spec fn not_found_response() -> ResponseView {
    ResponseView {
        status: 404,
        headers: seq![
            (content_length_name(), seq![decimal(encode_utf8(NOT_FOUND_BODY@).len())]),
        ],
        body: encode_utf8(NOT_FOUND_BODY@),
    }
}

/// The names of the files.
pub open spec fn file_names_of(files: FilesView) -> Seq<Seq<u8>> {
    files.map_values(|f: (Seq<u8>, Seq<u8>)| f.0)
}

/// The answer for the file named `name` (UTF-8 bytes).
pub open spec fn file_response(files: FilesView, name: Seq<u8>) -> ResponseView {
    match lookup(files, name) {
        Some(c) => ok_response(c),
        None => not_found_response(),
    }
}

/// The answer for the URI path `path` (UTF-8 bytes, at least one byte):
/// the index for `/`, the icon answer for `/favicon.ico`, else the file
/// named by the path without its first byte.
pub open spec fn route(path: Seq<u8>, files: FilesView) -> ResponseView {
    if path == ascii("/"@) {
        ok_response(index_page(file_names_of(files)))
    } else if path == ascii("/favicon.ico"@) {
        favicon_response()
    } else {
        file_response(files, path.subrange(1, path.len() as int))
    }
}

/// A file that is there is answered with status 200 and exactly its
/// contents, a name that is not there with the not-found page; the paths
/// `/` and `/favicon.ico` name no file.
pub proof fn law_file_paths(files: FilesView, name: Seq<u8>)
    requires
        name.len() > 0,
        name != ascii("favicon.ico"@),
    ensures
        ({
            let r = route(ascii("/"@) + name, files);
            match lookup(files, name) {
                Some(c) => r == ok_response(c),
                None => r == not_found_response(),
            }
        }),
{
    reveal_strlit("/");
    reveal_strlit("/favicon.ico");
    reveal_strlit("favicon.ico");
    let path = ascii("/"@) + name;
    assert(path.subrange(1, path.len() as int) =~= name);
    assert(path != ascii("/"@)) by {
        assert(path.len() != ascii("/"@).len());
    }
    if path == ascii("/favicon.ico"@) {
        assert(name =~= ascii("favicon.ico"@));
    }
}

/// Every answer that a path gets announces the length of its body.
pub proof fn law_content_length_is_body_length(path: Seq<u8>, files: FilesView)
    ensures
        exists|i: int|
            0 <= i < route(path, files).headers.len() && #[trigger] route(path, files).headers[i]
                == (content_length_name(), seq![decimal(route(path, files).body.len())]),
{
    let r = route(path, files);
    if r.headers.len() == 2 {
        assert(r.headers[1] == (content_length_name(), seq![decimal(r.body.len())]));
    } else {
        assert(r.headers[0] == (content_length_name(), seq![decimal(r.body.len())]));
    }
}

/// The files after answering the URI path `path`: the file it names, if any,
/// has been read to its end.
pub open spec fn route_files(path: Seq<u8>, files: FilesView) -> FilesView {
    if path == ascii("/"@) || path == ascii("/favicon.ico"@) {
        files
    } else {
        read_out(files, path.subrange(1, path.len() as int))
    }
}

/// Every answer that a path gets holds header values shown as text.
pub proof fn lemma_route_visible(path: Seq<u8>, files: FilesView)
    ensures
        fields_visible(route(path, files).headers),
{
    lemma_header_names();
    let r = route(path, files);
    lemma_decimal_visible(r.body.len());
    assert forall|i: int, k: int|
        0 <= i < r.headers.len() && 0 <= k < r.headers[i].1.len() implies visible(
        #[trigger] r.headers[i].1[k],
    ) by {
        if r.headers.len() == 2 && i == 0 {
            assert(r.headers[i].1[k] == ascii("close"@));
        } else {
            assert(r.headers[i].1[k] == decimal(r.body.len()));
        }
    }
}

/// The header names used here are accepted by `http` and stored lower-cased,
/// and they differ.
proof fn lemma_header_names()
    ensures
        header_token(ascii("Connection"@)),
        lower(ascii("Connection"@)) == connection_name(),
        header_token(ascii("Content-Length"@)),
        lower(ascii("Content-Length"@)) == content_length_name(),
        connection_name() != content_length_name(),
        visible(ascii("close"@)),
        valid_value(ascii("close"@)),
        is_ascii("Connection"),
        is_ascii("Content-Length"),
        is_ascii("close"),
{
    reveal_strlit("Connection");
    reveal_strlit("connection");
    reveal_strlit("Content-Length");
    reveal_strlit("content-length");
    reveal_strlit("close");
    assert(lower(ascii("Connection"@)) =~= connection_name());
    assert(lower(ascii("Content-Length"@)) =~= content_length_name());
    assert(connection_name()[3] != content_length_name()[3]);
}

/// Every decimal numeral is shown as text, and `http` accepts it as a
/// header value.
proof fn lemma_decimal_visible(n: nat)
    ensures
        visible(decimal(n)),
        valid_value(decimal(n)),
    decreases n,
{
    if n >= 10 {
        lemma_decimal_visible(n / 10);
    }
}

/// A 200 response that closes the connection and carries `body`.
fn ok_with_body(body: Vec<u8>) -> (r: Result<Response, HttpError>)
    ensures
        r matches Ok(resp) && resp@ == ok_response(body@),
{
    proof {
        lemma_header_names();
        lemma_decimal_visible(body@.len());
    }
    let length = decimal_bytes(body.len() as u64);
    let b = ResponseBuilder::new().status(200);
    let b = b.header(literal_bytes("Connection").as_slice(), literal_bytes("close"));
    let b = b.header(literal_bytes("Content-Length").as_slice(), length);
    let r = b.body(body);
    proof {
        let h1 = seq![(connection_name(), seq![ascii("close"@)])];
        assert(crate::response::add_field(seq![], connection_name(), ascii("close"@)) =~= h1);
        assert(!(exists|i: int| 0 <= i < h1.len() && (#[trigger] h1[i]).0 == content_length_name()));
        assert(crate::response::add_field(h1, content_length_name(), decimal(body@.len()))
            =~= ok_response(body@).headers);
    }
    r
}

/// The index page, linking to every file.
pub fn index(file_tree: &FileTree) -> (r: Result<Response, HttpError>)
    ensures
        r matches Ok(resp) && resp@ == ok_response(index_page(file_names_of(file_tree@))),
{
    let names = file_tree.file_names();
    let body = join_index(&names);
    proof {
        assert(crate::html_parse::utf8_names(names@) =~= file_names_of(file_tree@)) by {
            assert(names@.map_values(|s: String| encode_utf8(s@)) == file_tree@.map_values(
                |f: (Seq<u8>, Seq<u8>)| f.0,
            ));
        }
    }
    ok_with_body(body)
}

/// The answer to a request for the icon: there is none.
pub fn favicon() -> (r: Result<Response, HttpError>)
    ensures
        r matches Ok(resp) && resp@ == favicon_response(),
{
    proof {
        lemma_header_names();
        lemma_decimal_visible(0);
    }
    let b = ResponseBuilder::new().status(404);
    let b = b.header(literal_bytes("Connection").as_slice(), literal_bytes("close"));
    let b = b.header(literal_bytes("Content-Length").as_slice(), decimal_bytes(0));
    let r = b.body(Vec::new());
    proof {
        let h1 = seq![(connection_name(), seq![ascii("close"@)])];
        assert(crate::response::add_field(seq![], connection_name(), ascii("close"@)) =~= h1);
        assert(!(exists|i: int| 0 <= i < h1.len() && (#[trigger] h1[i]).0 == content_length_name()));
        assert(crate::response::add_field(h1, content_length_name(), decimal(0))
            =~= favicon_response().headers);
    }
    r
}

/// The answer for a file that is not there.
pub fn not_found() -> (r: Result<Response, HttpError>)
    ensures
        r matches Ok(resp) && resp@ == not_found_response(),
{
    let mut body: Vec<u8> = Vec::new();
    append_bytes(&mut body, NOT_FOUND_BODY.as_bytes());
    proof {
        lemma_header_names();
        lemma_decimal_visible(body@.len());
    }
    let b = ResponseBuilder::new().status(404);
    let b = b.header(literal_bytes("Content-Length").as_slice(), decimal_bytes(body.len() as u64));
    let r = b.body(body);
    proof {
        assert(crate::response::add_field(
            seq![],
            content_length_name(),
            decimal(encode_utf8(NOT_FOUND_BODY@).len()),
        ) =~= not_found_response().headers);
    }
    r
}

/// The answer for the file named `name`: what is left unread of it, which
/// it reads to the end, or the not-found page.
pub fn transfer_file(file_tree: &mut FileTree, name: &str) -> (r: Result<Response, HttpError>)
    ensures
        r matches Ok(resp) && resp@ == file_response(old(file_tree)@, encode_utf8(name@)),
        final(file_tree)@ == read_out(old(file_tree)@, encode_utf8(name@)),
{
    let file = file_tree.read_file(name);
    match file {
        None => not_found(),
        Some(buf) => ok_with_body(buf),
    }
}

/// The answer for a request: the index for `/`, no icon for `/favicon.ico`,
/// else the file named by the path without its leading `/`.
pub fn response(req: &Request, file_tree: &mut FileTree) -> (r: Result<Response, HttpError>)
    requires
        req.spec_path().len() > 0,
        is_char_boundary(encode_utf8(req.spec_path()), 1),
    ensures
        r matches Ok(resp) && resp@ == route(encode_utf8(req.spec_path()), old(file_tree)@),
        final(file_tree)@ == route_files(encode_utf8(req.spec_path()), old(file_tree)@),
{
    let url = req.path();
    let path = url.as_bytes();
    proof {
        reveal_strlit("/");
        reveal_strlit("/favicon.ico");
    }
    let root = literal_bytes("/");
    let icon = literal_bytes("/favicon.ico");
    if bytes_eq(path, root.as_slice()) {
        index(file_tree)
    } else if bytes_eq(path, icon.as_slice()) {
        favicon()
    } else {
        let (_, name) = url.split_at(1);
        transfer_file(file_tree, name)
    }
}

// ---------------------------------------------------------------------------
// Bytes of a response

/// The status line's text after the version: the code, a space, and the
/// reason phrase (or a mark for a code without one).
pub open spec fn status_text(code: u16) -> Seq<u8> {
    decimal(code as nat) + ascii(" "@) + match canonical_reason(code) {
        Some(p) => p,
        None => ascii("<unknown status code>"@),
    }
}

/// The lines of one header name, one per value.
pub open spec fn field_lines(name: Seq<u8>, values: Seq<Seq<u8>>) -> Seq<u8>
    decreases values.len(),
{
    if values.len() == 0 {
        seq![]
    } else {
        field_lines(name, values.drop_last()) + name + ascii(": "@) + values.last() + ascii(
            "\r\n"@,
        )
    }
}

/// The header lines of a header map, name by name.
pub open spec fn header_lines(h: Seq<(Seq<u8>, Seq<Seq<u8>>)>) -> Seq<u8>
    decreases h.len(),
{
    if h.len() == 0 {
        seq![]
    } else {
        header_lines(h.drop_last()) + field_lines(h.last().0, h.last().1)
    }
}

/// The head of a response: status line, header lines, blank line.
pub open spec fn head_bytes(r: ResponseView) -> Seq<u8> {
    ascii("HTTP/1.1 "@) + status_text(r.status) + ascii("\r\n"@) + header_lines(r.headers)
        + ascii("\r\n"@)
}

/// A response as sent: its head, then its body.
pub open spec fn response_bytes(r: ResponseView) -> Seq<u8> {
    head_bytes(r) + r.body
}

/// Writes the head of `resp` at the end of `buf`.
fn write_resp_head(buf: &mut Vec<u8>, resp: &Response)
    ensures
        final(buf)@ == old(buf)@ + head_bytes(resp@),
{
    proof {
        reveal_strlit("HTTP/1.1 ");
        reveal_strlit(" ");
        reveal_strlit("<unknown status code>");
        reveal_strlit("\r\n");
        reveal_strlit(": ");
    }
    let ghost start = buf@;
    append_bytes(buf, literal_bytes("HTTP/1.1 ").as_slice());
    let status = resp.status();
    append_bytes(buf, decimal_bytes(status as u64).as_slice());
    append_bytes(buf, literal_bytes(" ").as_slice());
    match reason_phrase(status) {
        Some(p) => append_bytes(buf, p.as_slice()),
        None => append_bytes(buf, literal_bytes("<unknown status code>").as_slice()),
    }
    let crlf = literal_bytes("\r\n");
    let sep = literal_bytes(": ");
    append_bytes(buf, crlf.as_slice());
    let ghost after_status = buf@;
    assert(after_status == start + ascii("HTTP/1.1 "@) + status_text(status) + ascii("\r\n"@));
    let fields = resp.fields();
    let ghost h = resp@.headers;
    let mut i: usize = 0;
    while i < fields.len()
        invariant
            0 <= i <= fields@.len(),
            fields@.map_values(|f: crate::response::HeaderField| f@) == h,
            crlf@ == ascii("\r\n"@),
            sep@ == ascii(": "@),
            buf@ == after_status + header_lines(h.take(i as int)),
        decreases fields@.len() - i,
    {
        let name = fields[i].name();
        let values = fields[i].values();
        let ghost vals = h[i as int].1;
        let ghost before_field = buf@;
        let mut j: usize = 0;
        while j < values.len()
            invariant
                0 <= j <= values@.len(),
                values@.map_values(|v: Vec<u8>| v@) == vals,
                name@ == h[i as int].0,
                crlf@ == ascii("\r\n"@),
                sep@ == ascii(": "@),
                buf@ == before_field + field_lines(name@, vals.take(j as int)),
            decreases values@.len() - j,
        {
            let ghost before_line = buf@;
            append_bytes(buf, name.as_slice());
            append_bytes(buf, sep.as_slice());
            append_bytes(buf, values[j].as_slice());
            append_bytes(buf, crlf.as_slice());
            proof {
                assert(vals.take(j + 1).drop_last() =~= vals.take(j as int));
                assert(vals.take(j + 1).last() == values@[j as int]@);
                assert(buf@ =~= before_field + field_lines(name@, vals.take(j + 1)));
            }
            j = j + 1;
        }
        proof {
            assert(vals.take(values@.len() as int) =~= vals);
            assert(h.take(i + 1).drop_last() =~= h.take(i as int));
            assert(h.take(i + 1).last() == h[i as int]);
            assert(buf@ =~= after_status + header_lines(h.take(i + 1)));
        }
        i = i + 1;
    }
    assert(h.take(fields@.len() as int) =~= h);
    append_bytes(buf, crlf.as_slice());
    assert(buf@ =~= start + head_bytes(resp@));
}

/// A response in the form sent on the wire.
pub trait SerializeResponse {
    /// Whether every header value can be written as text.
    spec fn serializable(&self) -> bool;

    /// The bytes that the response is sent as.
    spec fn wire_bytes(&self) -> Seq<u8>;

    /// The bytes that the response is sent as.
    fn to_byte(&self) -> (r: Vec<u8>)
        requires
            self.serializable(),
        ensures
            r@ == self.wire_bytes(),
    ;
}

impl SerializeResponse for Response {
    open spec fn serializable(&self) -> bool {
        fields_visible(self@.headers)
    }

    open spec fn wire_bytes(&self) -> Seq<u8> {
        response_bytes(self@)
    }

    fn to_byte(&self) -> (r: Vec<u8>) {
        let mut res: Vec<u8> = Vec::new();
        write_resp_head(&mut res, self);
        append_bytes(&mut res, self.body().as_slice());
        assert(res@ =~= response_bytes(self@));
        res
    }
}

// ---------------------------------------------------------------------------
// Gathering the request head

/// The length of the next line of `s`: up to and including the first line
/// feed, or all of `s` where it holds none.
pub open spec fn line_len(s: Seq<u8>) -> nat
    decreases s.len(),
{
    if s.len() == 0 {
        0
    } else if s[0] == 10 {
        1
    } else {
        1 + line_len(s.drop_first())
    }
}

/// The request head that a stream starts with: its lines, one after another,
/// up to and including the first line that is just `\r\n`, or the whole
/// stream where no such line comes.
pub open spec fn head_of(s: Seq<u8>) -> Seq<u8>
    decreases s.len(),
{
    let n = line_len(s);
    if n == 0 {
        seq![]
    } else if s.take(n as int) == ascii("\r\n"@) {
        s.take(n as int)
    } else {
        proof {
            lemma_line_len_bounds(s);
        }
        s.take(n as int) + head_of(s.skip(n as int))
    }
}

/// A stream with bytes has a next line of at least one byte and at most
/// all of it.
pub proof fn lemma_line_len_bounds(s: Seq<u8>)
    ensures
        line_len(s) <= s.len(),
        s.len() > 0 ==> line_len(s) >= 1,
    decreases s.len(),
{
    if s.len() > 0 && s[0] != 10 {
        lemma_line_len_bounds(s.drop_first());
    }
}

/// The length of the next line of `s[from..]`.
fn next_line_len(s: &[u8], from: usize) -> (r: usize)
    requires
        from <= s@.len(),
    ensures
        r == line_len(s@.skip(from as int)),
        from + r <= s@.len(),
{
    let mut i: usize = from;
    while i < s.len()
        invariant
            from <= i <= s@.len(),
            forall|k: int| from <= k < i ==> s@[k] != 10,
            line_len(s@.skip(from as int)) == (i - from) + line_len(s@.skip(i as int)),
        decreases s@.len() - i,
    {
        assert(s@.skip(i as int).drop_first() =~= s@.skip(i + 1));
        if s[i] == 10 {
            return i + 1 - from;
        }
        i = i + 1;
    }
    i - from
}

/// The request head gathered line by line, as the server reads it from a
/// connection.
pub struct HeadReader {
    head: Vec<u8>,
    done: bool,
}

impl HeadReader {
    /// What has been gathered.
    pub closed spec fn spec_head(&self) -> Seq<u8> {
        self.head@
    }

    /// Whether the head is complete.
    pub closed spec fn spec_done(&self) -> bool {
        self.done
    }

    /// A reader that has gathered nothing.
    pub fn new() -> (r: Self)
        ensures
            r.spec_head() == Seq::<u8>::empty(),
            !r.spec_done(),
    {
        HeadReader { head: Vec::new(), done: false }
    }

    /// Whether the head is complete.
    pub fn is_done(&self) -> (r: bool)
        ensures
            r == self.spec_done(),
    {
        self.done
    }

    /// Takes the next line read (empty at the end of the stream): it joins
    /// the head, and the head is complete when the line is empty or just
    /// `\r\n`.
    pub fn push_line(&mut self, line: &[u8])
        requires
            !old(self).spec_done(),
        ensures
            final(self).spec_head() == old(self).spec_head() + line@,
            final(self).spec_done() == (line@.len() == 0 || line@ == ascii("\r\n"@)),
    {
        append_bytes(&mut self.head, line);
        proof {
            reveal_strlit("\r\n");
        }
        let crlf = literal_bytes("\r\n");
        self.done = line.len() == 0 || bytes_eq(line, crlf.as_slice());
    }

    /// The head gathered.
    pub fn into_head(self) -> (r: Vec<u8>)
        ensures
            r@ == self.spec_head(),
    {
        self.head
    }
}

/// The head that a reader gathers from the lines of a whole stream: the
/// head that the stream starts with.
pub fn request_head(stream: &[u8]) -> (r: Vec<u8>)
    ensures
        r@ == head_of(stream@),
{
    let mut reader = HeadReader::new();
    let mut pos: usize = 0;
    assert(stream@.skip(0) =~= stream@);
    while !reader.is_done()
        invariant
            pos <= stream@.len(),
            !reader.spec_done() ==> reader.spec_head() + head_of(stream@.skip(pos as int))
                == head_of(stream@),
            reader.spec_done() ==> reader.spec_head() == head_of(stream@),
        decreases stream@.len() - pos + (if reader.spec_done() { 0int } else { 1int }),
    {
        let n = next_line_len(stream, pos);
        let total = stream.len();
        assert(pos + n <= total);
        let line = vstd::slice::slice_subrange(stream, pos, pos + n);
        let ghost rest = stream@.skip(pos as int);
        let ghost before = reader.spec_head();
        assert(line@ =~= rest.take(n as int));
        reader.push_line(line);
        proof {
            reveal_strlit("\r\n");
            lemma_line_len_bounds(rest);
            if n > 0 && rest.take(n as int) != ascii("\r\n"@) {
                assert(rest.skip(n as int) =~= stream@.skip(pos + n));
            }
        }
        pos = pos + n;
    }
    reader.into_head()
}

// ---------------------------------------------------------------------------
// A whole exchange

/// What became of a request head.
pub enum Handled {
    /// The connection sent nothing: nothing is answered.
    NoRequest,
    /// The bytes to send back.
    Reply(Vec<u8>),
    /// The head names no path that the server can answer (no request target,
    /// a target that is no URI, or a path whose first byte does not end a
    /// character): nothing is answered, and the connection's thread is to
    /// stop with an error.
    Unanswerable,
}

/// Whether a URI path can be answered: it has a first byte and that byte
/// ends a character.
pub open spec fn answerable(path: Seq<u8>) -> bool {
    path.len() > 0 && is_char_boundary(path, 1)
}

/// The bytes sent back for a request head when the files are `files`, if
/// any.
pub open spec fn reply_of(head: Seq<u8>, files: FilesView) -> Option<Seq<u8>> {
    if head.len() == 0 {
        None
    } else {
        match requested_path(head) {
            None => None,
            Some(p) => if answerable(encode_utf8(p)) {
                Some(response_bytes(route(encode_utf8(p), files)))
            } else {
                None
            },
        }
    }
}

/// Answering a request head sends exactly the wire form of the response that
/// `response` gives for the request that `from_byte` reads from the head.
pub proof fn law_reply_is_response_wire(
    head: Seq<u8>,
    files: FilesView,
    req: Request,
    resp: Response,
)
    requires
        head.len() > 0,
        <Request as DeserializeRequset>::read_as(head, Ok(req)),
        answerable(encode_utf8(req.spec_path())),
        resp@ == route(encode_utf8(req.spec_path()), files),
    ensures
        reply_of(head, files) == Some(resp.wire_bytes()),
{
}

/// Every request whose URI path has a first byte that ends a character is
/// answered, whatever the path's letters: with the wire form of its routed
/// response.
pub proof fn law_every_path_is_answered(head: Seq<u8>, files: FilesView)
    requires
        head.len() > 0,
        requested_path(head) is Some,
        encode_utf8(requested_path(head).unwrap()).len() > 0,
        is_char_boundary(encode_utf8(requested_path(head).unwrap()), 1),
    ensures
        answerable(encode_utf8(requested_path(head).unwrap())),
        reply_of(head, files) == Some(
            response_bytes(route(encode_utf8(requested_path(head).unwrap()), files)),
        ),
{
}

/// The wire form of a response ends with its whole body, after its head,
/// and starts with the status line's version; for every answer the server
/// routes, the header `content-length` announces exactly the number of bytes
/// that follow the head.
pub proof fn law_wire_carries_whole_body(r: ResponseView, path: Seq<u8>, files: FilesView)
    ensures
        response_bytes(r).len() == head_bytes(r).len() + r.body.len(),
        response_bytes(r).take(head_bytes(r).len() as int) == head_bytes(r),
        response_bytes(r).skip(head_bytes(r).len() as int) == r.body,
        response_bytes(r).take(9) == ascii("HTTP/1.1 "@),
        ({
            let q = route(path, files);
            let w = response_bytes(q);
            let after_head = (w.len() - head_bytes(q).len()) as nat;
            &&& w.skip(head_bytes(q).len() as int) == q.body
            &&& exists|i: int|
                0 <= i < q.headers.len() && #[trigger] q.headers[i] == (
                    content_length_name(),
                    seq![decimal(after_head)],
                )
        }),
{
    reveal_strlit("HTTP/1.1 ");
    let w = response_bytes(r);
    assert(w.take(head_bytes(r).len() as int) =~= head_bytes(r));
    assert(w.skip(head_bytes(r).len() as int) =~= r.body);
    assert(ascii("HTTP/1.1 "@).len() == 9);
    assert(w.take(9) =~= ascii("HTTP/1.1 "@));
    let q = route(path, files);
    let wq = response_bytes(q);
    assert(wq.skip(head_bytes(q).len() as int) =~= q.body);
    law_content_length_is_body_length(path, files);
}

/// Answers the head of one request.
pub fn handle_request(head: &[u8], file_tree: &mut FileTree) -> (r: Handled)
    ensures
        match r {
            Handled::Reply(v) => reply_of(head@, old(file_tree)@) == Some(v@),
            _ => reply_of(head@, old(file_tree)@) is None,
        },
        head@.len() == 0 ==> r is NoRequest && final(file_tree)@ == old(file_tree)@,
        head@.len() > 0 ==> match requested_path(head@) {
            None => r is Unanswerable && final(file_tree)@ == old(file_tree)@,
            Some(p) => if answerable(encode_utf8(p)) {
                &&& r matches Handled::Reply(v) && v@ == response_bytes(
                    route(encode_utf8(p), old(file_tree)@),
                )
                &&& final(file_tree)@ == route_files(encode_utf8(p), old(file_tree)@)
            } else {
                r is Unanswerable && final(file_tree)@ == old(file_tree)@
            },
        },
{
    if head.len() == 0 {
        return Handled::NoRequest;
    }
    if !has_request_target(head) {
        return Handled::Unanswerable;
    }
    let req = match Request::from_byte(head) {
        Ok(req) => req,
        Err(_) => {
            return Handled::Unanswerable;
        },
    };
    let url = req.path();
    assert(requested_path(head@) == Some(req.spec_path()));
    let n = url.as_bytes().len();
    if n == 0 {
        assert(!answerable(encode_utf8(req.spec_path())));
        return Handled::Unanswerable;
    }
    let boundary = url.is_char_boundary(1);
    assert(url@ == req.spec_path());
    assert(boundary == is_char_boundary(encode_utf8(url@), 1));
    if !boundary {
        assert(!answerable(encode_utf8(req.spec_path())));
        return Handled::Unanswerable;
    }
    proof {
        vstd::utf8::encode_utf8_decode_utf8(req.spec_path());
        lemma_route_visible(encode_utf8(req.spec_path()), file_tree@);
    }
    match response(&req, file_tree) {
        Ok(resp) => Handled::Reply(resp.to_byte()),
        Err(_) => Handled::Unanswerable,
    }
}

} // verus!
