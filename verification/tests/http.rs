use transfer::html_parse::{INDEX_END, INDEX_START, NOT_FOUND_BODY};
use transfer::http_parse::{
    favicon, has_request_target, index, not_found, request_head, transfer_file, Handled,
    HeadReader, Request,
};
use transfer::response::{HttpError, ResponseBuilder};
use transfer::{handle_request, join_index, response, DeserializeRequset, FileTree, SerializeResponse};

fn tree() -> FileTree {
    let mut t = FileTree::new();
    t.insert("a.txt".to_string(), b"hello".to_vec());
    t.insert("b.txt".to_string(), b"".to_vec());
    t
}

fn index_body(names: &[&str]) -> Vec<u8> {
    let mut v = INDEX_START.as_bytes().to_vec();
    for n in names {
        v.extend_from_slice(format!("<a href = {}>{}<br></a>", n, n).as_bytes());
    }
    v.extend_from_slice(INDEX_END.as_bytes());
    v
}

fn ok_bytes(body: &[u8]) -> Vec<u8> {
    let mut v = format!(
        "HTTP/1.1 200 OK\r\nconnection: close\r\ncontent-length: {}\r\n\r\n",
        body.len()
    )
    .into_bytes();
    v.extend_from_slice(body);
    v
}

fn not_found_bytes() -> Vec<u8> {
    let mut v = format!(
        "HTTP/1.1 404 Not Found\r\ncontent-length: {}\r\n\r\n",
        NOT_FOUND_BODY.len()
    )
    .into_bytes();
    v.extend_from_slice(NOT_FOUND_BODY.as_bytes());
    v
}

#[test]
fn join_index_links_each_name() {
    let names = vec!["a.txt".to_string(), "b c".to_string()];
    assert_eq!(join_index(&names), index_body(&["a.txt", "b c"]));
    assert_eq!(join_index(&Vec::new()), index_body(&[]));
}

#[test]
fn index_response_bytes() {
    let t = tree();
    let r = index(&t).unwrap();
    assert_eq!(r.status(), 200);
    assert_eq!(r.header_values(b"connection"), vec![b"close".to_vec()]);
    assert_eq!(r.to_byte(), ok_bytes(&index_body(&["a.txt", "b.txt"])));
}

#[test]
fn favicon_response_bytes() {
    let r = favicon().unwrap();
    assert_eq!(r.status(), 404);
    assert_eq!(
        r.to_byte(),
        b"HTTP/1.1 404 Not Found\r\nconnection: close\r\ncontent-length: 0\r\n\r\n".to_vec()
    );
}

#[test]
fn not_found_response_bytes() {
    let r = not_found().unwrap();
    assert_eq!(r.header_values(b"connection"), Vec::<Vec<u8>>::new());
    assert_eq!(r.to_byte(), not_found_bytes());
}

#[test]
fn transfer_file_found_and_missing() {
    let mut t = tree();
    assert_eq!(transfer_file(&mut t, "a.txt").unwrap().to_byte(), ok_bytes(b"hello"));
    assert_eq!(transfer_file(&mut t, "b.txt").unwrap().to_byte(), ok_bytes(b""));
    assert_eq!(transfer_file(&mut t, "zzz").unwrap().to_byte(), not_found_bytes());
}

#[test]
fn second_download_is_empty() {
    let mut t = tree();
    assert_eq!(transfer_file(&mut t, "a.txt").unwrap().to_byte(), ok_bytes(b"hello"));
    assert_eq!(transfer_file(&mut t, "a.txt").unwrap().to_byte(), ok_bytes(b""));
}

#[test]
fn request_from_bytes() {
    let r = Request::from_byte(b"GET /a.txt?x=1 HTTP/1.1\r\nHost: h\r\n\r\n").unwrap();
    assert_eq!(r.path(), "/a.txt");
    let r = Request::from_byte(b"GET /dir/f HTTP/1.1\r\n").unwrap();
    assert_eq!(r.path(), "/dir/f");
    assert!(!has_request_target(b"GET"));
    assert!(!has_request_target(b""));
    assert!(has_request_target(b"GET / HTTP/1.1\r\n"));
}

#[test]
fn routing() {
    let mut t = tree();
    let req = Request::from_byte(b"GET / HTTP/1.1\r\n\r\n").unwrap();
    assert_eq!(response(&req, &mut t).unwrap().to_byte(), ok_bytes(&index_body(&["a.txt", "b.txt"])));
    let req = Request::from_byte(b"GET /favicon.ico HTTP/1.1\r\n\r\n").unwrap();
    assert_eq!(response(&req, &mut t).unwrap().status(), 404);
    let req = Request::from_byte(b"GET /a.txt HTTP/1.1\r\n\r\n").unwrap();
    assert_eq!(response(&req, &mut t).unwrap().to_byte(), ok_bytes(b"hello"));
}

fn reply(h: Handled) -> Vec<u8> {
    match h {
        Handled::Reply(v) => v,
        Handled::NoRequest => panic!("no request"),
        Handled::Unanswerable => panic!("unanswerable"),
    }
}

#[test]
fn handle_whole_requests() {
    let mut t = tree();
    assert!(matches!(handle_request(b"", &mut t), Handled::NoRequest));
    assert_eq!(
        reply(handle_request(b"GET /a.txt HTTP/1.1\r\nHost: x\r\n\r\n", &mut t)),
        ok_bytes(b"hello")
    );
    assert_eq!(
        reply(handle_request(b"GET /a.txt?download=1 HTTP/1.1\r\n\r\n", &mut t)),
        ok_bytes(b"")
    );
    assert_eq!(reply(handle_request(b"GET /nothing HTTP/1.1\r\n\r\n", &mut t)), not_found_bytes());
    assert_eq!(
        reply(handle_request(b"GET / HTTP/1.1\r\n\r\n", &mut t)),
        ok_bytes(&index_body(&["a.txt", "b.txt"]))
    );
    assert!(matches!(handle_request(b"\x01\x02", &mut t), Handled::Unanswerable));
}

#[test]
fn head_reader_stops_at_blank_line() {
    let mut r = HeadReader::new();
    r.push_line(b"GET / HTTP/1.1\r\n");
    assert!(!r.is_done());
    r.push_line(b"Host: x\r\n");
    assert!(!r.is_done());
    r.push_line(b"\r\n");
    assert!(r.is_done());
    assert_eq!(r.into_head(), b"GET / HTTP/1.1\r\nHost: x\r\n\r\n".to_vec());
    let mut r = HeadReader::new();
    r.push_line(b"partial");
    r.push_line(b"");
    assert!(r.is_done());
    assert_eq!(r.into_head(), b"partial".to_vec());
}

#[test]
fn request_head_of_streams() {
    assert_eq!(request_head(b""), Vec::<u8>::new());
    assert_eq!(
        request_head(b"GET / HTTP/1.1\r\nA: b\r\n\r\nBODY"),
        b"GET / HTTP/1.1\r\nA: b\r\n\r\n".to_vec()
    );
    assert_eq!(request_head(b"GET / HTTP/1.1\r\nA: b"), b"GET / HTTP/1.1\r\nA: b".to_vec());
    assert_eq!(request_head(b"x\n\n\r\nrest"), b"x\n\n\r\n".to_vec());
}

#[test]
fn builder_refusals() {
    let r = ResponseBuilder::new().status(99).body(Vec::new());
    assert_eq!(r.err(), Some(HttpError::InvalidStatusCode));
    let r = ResponseBuilder::new().header(b"Bad Name", b"x".to_vec()).body(Vec::new());
    assert_eq!(r.err(), Some(HttpError::InvalidHeaderName));
    let r = ResponseBuilder::new().header(b"X-A", b"a\nb".to_vec()).body(Vec::new());
    assert_eq!(r.err(), Some(HttpError::InvalidHeaderValue));
    let r = ResponseBuilder::new()
        .status(1000)
        .header(b"Bad Name", b"x".to_vec())
        .body(Vec::new());
    assert_eq!(r.err(), Some(HttpError::InvalidStatusCode));
}

#[test]
fn builder_groups_values_by_name() {
    let r = ResponseBuilder::new()
        .status(201)
        .header(b"X-A", b"1".to_vec())
        .header(b"X-B", b"2".to_vec())
        .header(b"x-a", b"3".to_vec())
        .body(b"ok".to_vec())
        .unwrap();
    assert_eq!(r.header_values(b"x-a"), vec![b"1".to_vec(), b"3".to_vec()]);
    assert_eq!(
        r.to_byte(),
        b"HTTP/1.1 201 Created\r\nx-a: 1\r\nx-a: 3\r\nx-b: 2\r\n\r\nok".to_vec()
    );
}
