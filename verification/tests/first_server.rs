use transfer::run::{file_reply, listing_page, listing_reply, second_word, Served, MISSING_PAGE};
use transfer::run;

fn names(v: &[&str]) -> Vec<String> {
    v.iter().map(|s| s.to_string()).collect()
}

fn expected_listing(files: &[&str]) -> Vec<u8> {
    let template = transfer::run::LISTING_TEMPLATE;
    let mut out = String::new();
    for line in template.lines() {
        let line = line.trim();
        if line == "<body>" {
            out.push_str("<body><ul>");
            for f in files {
                out.push_str(&format!("<li><a href=\"./res/{}\">{}</a></li>", f, f));
            }
            out.push_str("</ul>");
        } else {
            out.push_str(line);
        }
    }
    out.into_bytes()
}

#[test]
fn second_word_of_lines() {
    assert_eq!(second_word("GET /x HTTP/1.1"), Some("/x".to_string()));
    assert_eq!(second_word("  GET\t\t/y  "), Some("/y".to_string()));
    assert_eq!(second_word("GET\u{3000}/z"), Some("/z".to_string()));
    assert_eq!(second_word("GET"), None);
    assert_eq!(second_word("   "), None);
    assert_eq!(second_word(""), None);
}

#[test]
fn listing_page_puts_list_in_body() {
    assert_eq!(listing_page(&names(&["a", "b.txt"])), expected_listing(&["a", "b.txt"]));
    assert_eq!(listing_page(&names(&[])), expected_listing(&[]));
}

#[test]
fn run_root_lists_files() {
    let files = names(&["a", "b"]);
    let body = expected_listing(&["a", "b"]);
    let mut expected = format!("HTTP/1.1 200 OK\r\nContent-Length: {}\r\n\r\n", body.len()).into_bytes();
    expected.extend_from_slice(&body);
    assert!(matches!(run("GET / HTTP/1.1"), Some(Served::ListFiles)));
    assert_eq!(listing_reply(&files), expected);
}

#[test]
fn run_res_path_reads_file() {
    match run("GET /res/a.txt HTTP/1.1") {
        Some(Served::ReadFile(p)) => assert_eq!(p, "/res/a.txt"),
        _ => panic!("expected a file"),
    }
}

#[test]
fn run_other_path_is_not_found() {
    let mut expected = format!(
        "HTTP/1.1 404 ERROENOT FOUND\r\nContent-Length: {}\r\n\r\n",
        MISSING_PAGE.len()
    )
    .into_bytes();
    expected.extend_from_slice(MISSING_PAGE.as_bytes());
    match run("GET /other HTTP/1.1") {
        Some(Served::Page(v)) => assert_eq!(v, expected),
        _ => panic!("expected a page"),
    }
}

#[test]
fn run_without_path_drops() {
    assert!(run("GET").is_none());
}

#[test]
fn file_reply_frames_contents() {
    assert_eq!(
        file_reply(b"abc"),
        b"HTTP/1.1 200 Ok FOUND\r\nContent-Length: 3\r\n\r\nabc".to_vec()
    );
}
