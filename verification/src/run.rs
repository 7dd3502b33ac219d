//! The first, single-threaded server: it answers each connection from the
//! first line of the request alone, with a listing of the `res` directory,
//! a file of it, or a not-found page.

use vstd::prelude::*;
use vstd::string::{StrSliceExecFns, StringExecFns};
use vstd::utf8::encode_utf8;

use crate::text::{append_bytes, ascii, bytes_eq, contains, contains_at, decimal, decimal_bytes, literal_bytes};

verus! {

broadcast use vstd::string::is_ascii_spec_bytes, vstd::utf8::encode_utf8_decode_utf8;

// ---------------------------------------------------------------------------
// White space and words

/// A white-space character as Rust's `char::is_whitespace` counts it (the
/// Unicode `White_Space` property).
pub open spec fn is_ws(c: char) -> bool {
    let u = c as u32;
    (9 <= u <= 13) || u == 32 || u == 0x85 || u == 0xA0 || u == 0x1680 || (0x2000 <= u <= 0x200A)
        || u == 0x2028 || u == 0x2029 || u == 0x202F || u == 0x205F || u == 0x3000
}

/// The number of white-space characters `s` starts with.
pub open spec fn lead_ws(s: Seq<char>) -> nat
    decreases s.len(),
{
    if s.len() > 0 && is_ws(s[0]) {
        1 + lead_ws(s.drop_first())
    } else {
        0
    }
}

/// The number of white-space characters `s` ends with.
pub open spec fn trail_ws(s: Seq<char>) -> nat
    decreases s.len(),
{
    if s.len() > 0 && is_ws(s.last()) {
        1 + trail_ws(s.drop_last())
    } else {
        0
    }
}

/// The number of other characters `s` starts with.
pub open spec fn word_len(s: Seq<char>) -> nat
    decreases s.len(),
{
    if s.len() > 0 && !is_ws(s[0]) {
        1 + word_len(s.drop_first())
    } else {
        0
    }
}

/// `s` without the white space at its start and at its end (`str::trim`).
pub open spec fn trim(s: Seq<char>) -> Seq<char> {
    let a = s.skip(lead_ws(s) as int);
    a.take(a.len() - trail_ws(a))
}

/// The words of `s`: its longest runs of characters that are not white
/// space, in order (`str::split_whitespace`).
pub open spec fn words(s: Seq<char>) -> Seq<Seq<char>>
    decreases s.len(),
{
    let r = s.skip(lead_ws(s) as int);
    if r.len() == 0 {
        seq![]
    } else {
        proof {
            lemma_lead_ws(s);
            lemma_word_len(r);
        }
        seq![r.take(word_len(r) as int)] + words(r.skip(word_len(r) as int))
    }
}

/// The white space that `s` starts with is all of `s` or stops before a
/// character that is not white space.
pub proof fn lemma_lead_ws(s: Seq<char>)
    ensures
        lead_ws(s) <= s.len(),
        lead_ws(s) < s.len() ==> !is_ws(s[lead_ws(s) as int]),
        forall|i: int| 0 <= i < lead_ws(s) ==> is_ws(#[trigger] s[i]),
    decreases s.len(),
{
    if s.len() > 0 && is_ws(s[0]) {
        lemma_lead_ws(s.drop_first());
        assert forall|i: int| 0 <= i < lead_ws(s) implies is_ws(#[trigger] s[i]) by {
            if i > 0 {
                assert(s[i] == s.drop_first()[i - 1]);
            }
        }
    }
}

/// The white space that `s` ends with is all of `s` or starts after a
/// character that is not white space.
pub proof fn lemma_trail_ws(s: Seq<char>)
    ensures
        trail_ws(s) <= s.len(),
        trail_ws(s) < s.len() ==> !is_ws(s[s.len() - trail_ws(s) - 1]),
        forall|i: int| s.len() - trail_ws(s) <= i < s.len() ==> is_ws(#[trigger] s[i]),
    decreases s.len(),
{
    if s.len() > 0 && is_ws(s.last()) {
        lemma_trail_ws(s.drop_last());
        assert forall|i: int| s.len() - trail_ws(s) <= i < s.len() implies is_ws(
            #[trigger] s[i],
        ) by {
            if i < s.len() - 1 {
                assert(s[i] == s.drop_last()[i]);
            }
        }
    }
}

/// A word of `s` is at most all of `s`, and at least one character where
/// `s` starts with a character that is not white space.
pub proof fn lemma_word_len(s: Seq<char>)
    ensures
        word_len(s) <= s.len(),
        s.len() > 0 && !is_ws(s[0]) ==> word_len(s) >= 1,
        word_len(s) < s.len() ==> is_ws(s[word_len(s) as int]),
        forall|i: int| 0 <= i < word_len(s) ==> !is_ws(#[trigger] s[i]),
    decreases s.len(),
{
    if s.len() > 0 && !is_ws(s[0]) {
        lemma_word_len(s.drop_first());
        assert forall|i: int| 0 <= i < word_len(s) implies !is_ws(#[trigger] s[i]) by {
            if i > 0 {
                assert(s[i] == s.drop_first()[i - 1]);
            }
        }
    }
}

/// Whether a character is white space.
fn is_whitespace(c: char) -> (r: bool)
    ensures
        r == is_ws(c),
{
    let u = c as u32;
    (9 <= u && u <= 13) || u == 32 || u == 0x85 || u == 0xA0 || u == 0x1680 || (0x2000 <= u && u
        <= 0x200A) || u == 0x2028 || u == 0x2029 || u == 0x202F || u == 0x205F || u == 0x3000
}

/// The number of white-space characters of `s` from `from` on, up to `to`.
fn count_lead_ws(s: &str, from: usize, to: usize) -> (r: usize)
    requires
        from <= to <= s@.len(),
    ensures
        r == lead_ws(s@.subrange(from as int, to as int)),
        from + r <= to,
{
    let ghost w = s@.subrange(from as int, to as int);
    let mut i: usize = from;
    while i < to
        invariant
            from <= i <= to <= s@.len(),
            w == s@.subrange(from as int, to as int),
            lead_ws(w) == (i - from) + lead_ws(s@.subrange(i as int, to as int)),
        decreases to - i,
    {
        assert(s@.subrange(i as int, to as int).drop_first() =~= s@.subrange(i + 1, to as int));
        if !is_whitespace(s.get_char(i)) {
            return i - from;
        }
        i = i + 1;
    }
    i - from
}

/// The number of other characters of `s` from `from` on, up to `to`.
fn count_word(s: &str, from: usize, to: usize) -> (r: usize)
    requires
        from <= to <= s@.len(),
    ensures
        r == word_len(s@.subrange(from as int, to as int)),
        from + r <= to,
{
    let ghost w = s@.subrange(from as int, to as int);
    let mut i: usize = from;
    while i < to
        invariant
            from <= i <= to <= s@.len(),
            w == s@.subrange(from as int, to as int),
            word_len(w) == (i - from) + word_len(s@.subrange(i as int, to as int)),
        decreases to - i,
    {
        assert(s@.subrange(i as int, to as int).drop_first() =~= s@.subrange(i + 1, to as int));
        if is_whitespace(s.get_char(i)) {
            return i - from;
        }
        i = i + 1;
    }
    i - from
}

/// The number of white-space characters that `s[from..to]` ends with.
fn count_trail_ws(s: &str, from: usize, to: usize) -> (r: usize)
    requires
        from <= to <= s@.len(),
    ensures
        r == trail_ws(s@.subrange(from as int, to as int)),
        from + r <= to,
{
    let ghost w = s@.subrange(from as int, to as int);
    let mut j: usize = to;
    while j > from
        invariant
            from <= j <= to <= s@.len(),
            w == s@.subrange(from as int, to as int),
            trail_ws(w) == (to - j) + trail_ws(s@.subrange(from as int, j as int)),
        decreases j - from,
    {
        assert(s@.subrange(from as int, j as int).drop_last() =~= s@.subrange(
            from as int,
            j - 1,
        ));
        if !is_whitespace(s.get_char(j - 1)) {
            return to - j;
        }
        j = j - 1;
    }
    to - j
}

/// The number of characters of `s` from `from` on, up to `to`, before the
/// first line feed.
fn count_to_newline(s: &str, from: usize, to: usize) -> (r: usize)
    requires
        from <= to <= s@.len(),
    ensures
        r == nl_len(s@.subrange(from as int, to as int)),
        from + r <= to,
{
    let ghost w = s@.subrange(from as int, to as int);
    let mut i: usize = from;
    while i < to
        invariant
            from <= i <= to <= s@.len(),
            w == s@.subrange(from as int, to as int),
            nl_len(w) == (i - from) + nl_len(s@.subrange(i as int, to as int)),
        decreases to - i,
    {
        assert(s@.subrange(i as int, to as int).drop_first() =~= s@.subrange(i + 1, to as int));
        if s.get_char(i) == '\n' {
            return i - from;
        }
        i = i + 1;
    }
    i - from
}

/// The number of characters before the first line feed of `s` (all of
/// them where it holds none).
pub open spec fn nl_len(s: Seq<char>) -> nat
    decreases s.len(),
{
    if s.len() > 0 && s[0] != '\n' {
        1 + nl_len(s.drop_first())
    } else {
        0
    }
}

/// The line feed that ends the first line of `s`, if any, stands right
/// after it.
pub proof fn lemma_nl_len(s: Seq<char>)
    ensures
        nl_len(s) <= s.len(),
        nl_len(s) < s.len() ==> s[nl_len(s) as int] == '\n',
    decreases s.len(),
{
    if s.len() > 0 && s[0] != '\n' {
        lemma_nl_len(s.drop_first());
    }
}

/// The second word of a line (`split_whitespace().nth(1)`), if it has one.
pub fn second_word(line: &str) -> (r: Option<String>)
    ensures
        match r {
            Some(w) => words(line@).len() >= 2 && w@ == words(line@)[1],
            None => words(line@).len() < 2,
        },
{
    let ghost s = line@;
    let len = line.unicode_len();
    assert(s.subrange(0, len as int) =~= s);
    let a = count_lead_ws(line, 0, len);
    let n1 = count_word(line, a, len);
    let ghost r = s.skip(a as int);
    proof {
        assert(r =~= s.subrange(a as int, len as int));
        lemma_lead_ws(s);
        lemma_word_len(r);
    }
    if n1 == 0 {
        assert(r.len() == 0);
        return None;
    }
    let b = a + n1;
    let ghost t = r.skip(n1 as int);
    assert(t =~= s.subrange(b as int, len as int));
    assert(words(s) == seq![r.take(n1 as int)] + words(t));
    let a2 = count_lead_ws(line, b, len);
    let n2 = count_word(line, b + a2, len);
    let ghost r2 = t.skip(a2 as int);
    proof {
        assert(r2 =~= s.subrange(b + a2, len as int));
        lemma_lead_ws(t);
        lemma_word_len(r2);
    }
    if n2 == 0 {
        assert(r2.len() == 0);
        assert(words(t) == Seq::<Seq<char>>::empty());
        return None;
    }
    assert(words(t) == seq![r2.take(n2 as int)] + words(r2.skip(n2 as int)));
    let w = line.substring_char(b + a2, b + a2 + n2);
    assert(w@ =~= r2.take(n2 as int));
    Some(String::from_str(w))
}

// ---------------------------------------------------------------------------
// Pages

/// The page that lists the files: its `<body>` line is where the list goes.
pub const LISTING_TEMPLATE: &'static str = "<!DOCTYPE html>\n<html>\n  <head>\n    <meta charset=\"utf-8\">\n    <title>Files</title>\n  </head>\n  <body>\n  </body>\n</html>\n";

/// The page for a request that names no file.
pub const MISSING_PAGE: &'static str = "<!DOCTYPE html>\n<html>\n  <head>\n    <meta charset=\"utf-8\">\n    <title>Not Found</title>\n  </head>\n  <body>\n    <h1>404 Not Found</h1>\n  </body>\n</html>\n";

/// The list item that links to the file `name` (UTF-8 bytes) under `./res/`.
pub open spec fn file_item(name: Seq<u8>) -> Seq<u8> {
    ascii("<li><a href=\"./res/"@) + name + ascii("\">"@) + name + ascii("</a></li>"@)
}

/// The list items of the files `names`, in that order.
pub open spec fn file_items(names: Seq<Seq<u8>>) -> Seq<u8>
    decreases names.len(),
{
    if names.len() == 0 {
        seq![]
    } else {
        file_items(names.drop_last()) + file_item(names.last())
    }
}

/// The list items of two lists of files, one after the other, are the items
/// of the first list followed by the items of the second.
pub proof fn lemma_file_items_concat(xs: Seq<Seq<u8>>, ys: Seq<Seq<u8>>)
    ensures
        file_items(xs + ys) == file_items(xs) + file_items(ys),
    decreases ys.len(),
{
    if ys.len() == 0 {
        assert(xs + ys =~= xs);
        assert(file_items(xs) + file_items(ys) =~= file_items(xs));
    } else {
        lemma_file_items_concat(xs, ys.drop_last());
        assert((xs + ys).drop_last() =~= xs + ys.drop_last());
        assert((xs + ys).last() == ys.last());
        assert(file_items(xs + ys) =~= file_items(xs) + file_items(ys));
    }
}

/// Every file of the list has its item in the listing: a link to `./res/`
/// followed by exactly the file's name, with the name as its text.
pub proof fn law_listing_links_every_name(names: Seq<Seq<u8>>, i: int)
    requires
        0 <= i < names.len(),
    ensures
        contains(
            file_items(names),
            ascii("<li><a href=\"./res/"@) + names[i] + ascii("\">"@) + names[i] + ascii(
                "</a></li>"@,
            ),
        ),
        file_items(seq![names[i]]) == ascii("<li><a href=\"./res/"@) + names[i] + ascii("\">"@)
            + names[i] + ascii("</a></li>"@),
{
    let pre = names.take(i);
    let one = seq![names[i]];
    let post = names.skip(i + 1);
    assert(names =~= pre + one + post);
    lemma_file_items_concat(pre + one, post);
    lemma_file_items_concat(pre, one);
    assert(one.drop_last() =~= Seq::<Seq<u8>>::empty());
    assert(one.last() == names[i]);
    assert(file_items(Seq::<Seq<u8>>::empty()) =~= Seq::<u8>::empty());
    let item = ascii("<li><a href=\"./res/"@) + names[i] + ascii("\">"@) + names[i] + ascii(
        "</a></li>"@,
    );
    assert(file_items(one) =~= item);
    let all = file_items(names);
    assert(all =~= file_items(pre) + item + file_items(post));
    let k = file_items(pre).len();
    assert(all.subrange(k as int, (k + item.len()) as int) =~= item);
    assert(contains_at(all, item, k as int));
}

/// One trimmed template line as it goes into the page: the `<body>` line
/// opens the list of `items` and closes it, any other line stays.
pub open spec fn render_line(line: Seq<char>, items: Seq<u8>) -> Seq<u8> {
    if line == "<body>"@ {
        ascii("<body><ul>"@) + items + ascii("</ul>"@)
    } else {
        encode_utf8(line)
    }
}

/// The page made from the template `t`: its lines, each trimmed and
/// rendered, joined with nothing between them.
pub open spec fn render(t: Seq<char>, items: Seq<u8>) -> Seq<u8>
    decreases t.len(),
{
    let i = nl_len(t);
    let out = render_line(trim(t.take(i as int)), items);
    if i >= t.len() {
        out
    } else {
        proof {
            lemma_nl_len(t);
        }
        out + render(t.skip(i + 1 as int), items)
    }
}

/// The UTF-8 bytes of each name.
pub open spec fn names_utf8(names: Seq<String>) -> Seq<Seq<u8>> {
    names.map_values(|s: String| encode_utf8(s@))
}

/// The list items of `files`.
fn list_items(files: &Vec<String>) -> (r: Vec<u8>)
    ensures
        r@ == file_items(names_utf8(files@)),
{
    proof {
        reveal_strlit("<li><a href=\"./res/");
        reveal_strlit("\">");
        reveal_strlit("</a></li>");
    }
    let open_tag = literal_bytes("<li><a href=\"./res/");
    let mid = literal_bytes("\">");
    let close_tag = literal_bytes("</a></li>");
    let ghost all = names_utf8(files@);
    let mut out: Vec<u8> = Vec::new();
    let mut i: usize = 0;
    while i < files.len()
        invariant
            0 <= i <= files@.len(),
            all == names_utf8(files@),
            open_tag@ == ascii("<li><a href=\"./res/"@),
            mid@ == ascii("\">"@),
            close_tag@ == ascii("</a></li>"@),
            out@ == file_items(all.take(i as int)),
        decreases files@.len() - i,
    {
        let name = files[i].as_str().as_bytes();
        let ghost before = out@;
        append_bytes(&mut out, open_tag.as_slice());
        append_bytes(&mut out, name);
        append_bytes(&mut out, mid.as_slice());
        append_bytes(&mut out, name);
        append_bytes(&mut out, close_tag.as_slice());
        proof {
            assert(all.take(i + 1).drop_last() =~= all.take(i as int));
            assert(all.take(i + 1).last() == encode_utf8(files@[i as int]@));
            assert(out@ =~= before + file_item(all[i as int]));
        }
        i = i + 1;
    }
    assert(all.take(files@.len() as int) =~= all);
    out
}

/// The listing page for `files`: the template with the list of links in
/// place of its `<body>` line, every line trimmed, lines joined.
pub fn listing_page(files: &Vec<String>) -> (r: Vec<u8>)
    ensures
        r@ == render(LISTING_TEMPLATE@, file_items(names_utf8(files@))),
{
    let items = list_items(files);
    let t = LISTING_TEMPLATE;
    let ghost tv = t@;
    proof {
        reveal_strlit("<body>");
        reveal_strlit("<body><ul>");
        reveal_strlit("</ul>");
    }
    let body_line = literal_bytes("<body>");
    let open_list = literal_bytes("<body><ul>");
    let close_list = literal_bytes("</ul>");
    let len = t.unicode_len();
    let mut out: Vec<u8> = Vec::new();
    let mut pos: usize = 0;
    let mut done = false;
    assert(tv.skip(0) =~= tv);
    while !done
        invariant
            pos <= len,
            len == tv.len(),
            tv == t@,
            body_line@ == encode_utf8("<body>"@),
            open_list@ == ascii("<body><ul>"@),
            close_list@ == ascii("</ul>"@),
            !done ==> render(tv, items@) == out@ + render(tv.skip(pos as int), items@),
            done ==> out@ == render(tv, items@),
        decreases len - pos + (if done { 0int } else { 1int }),
    {
        let ghost rest = tv.skip(pos as int);
        let ghost before = out@;
        let i = count_to_newline(t, pos, len);
        assert(rest =~= tv.subrange(pos as int, len as int));
        let ghost line = rest.take(i as int);
        assert(line =~= tv.subrange(pos as int, pos + i));
        let a = count_lead_ws(t, pos, pos + i);
        let z = count_trail_ws(t, pos + a, pos + i);
        proof {
            assert(line.skip(a as int) =~= tv.subrange(pos + a, pos + i));
        }
        let piece = t.substring_char(pos + a, pos + i - z);
        assert(piece@ =~= trim(line));
        let bytes = piece.as_bytes();
        if bytes_eq(bytes, body_line.as_slice()) {
            proof {
                vstd::utf8::encode_utf8_decode_utf8(piece@);
                vstd::utf8::encode_utf8_decode_utf8("<body>"@);
            }
            append_bytes(&mut out, open_list.as_slice());
            append_bytes(&mut out, items.as_slice());
            append_bytes(&mut out, close_list.as_slice());
        } else {
            append_bytes(&mut out, bytes);
        }
        assert(out@ == before + render_line(trim(line), items@));
        proof {
            lemma_nl_len(rest);
        }
        if i >= len - pos {
            done = true;
        } else {
            assert(rest.skip(i + 1) =~= tv.skip(pos + i + 1));
            pos = pos + i + 1;
        }
    }
    out
}

/// A reply of the first server: status line, the length of the body, the
/// body.
pub open spec fn plain_reply(status_line: Seq<u8>, body: Seq<u8>) -> Seq<u8> {
    status_line + ascii("\r\nContent-Length: "@) + decimal(body.len()) + ascii("\r\n\r\n"@) + body
}

/// A reply made of `status_line` and `body`.
fn reply_with(status_line: Vec<u8>, body: &[u8]) -> (r: Vec<u8>)
    ensures
        r@ == plain_reply(status_line@, body@),
{
    proof {
        reveal_strlit("\r\nContent-Length: ");
        reveal_strlit("\r\n\r\n");
    }
    let mut r = status_line;
    append_bytes(&mut r, literal_bytes("\r\nContent-Length: ").as_slice());
    append_bytes(&mut r, decimal_bytes(body.len() as u64).as_slice());
    append_bytes(&mut r, literal_bytes("\r\n\r\n").as_slice());
    append_bytes(&mut r, body);
    r
}

/// The reply carrying a file of `res` that was asked for.
pub fn file_reply(contents: &[u8]) -> (r: Vec<u8>)
    ensures
        r@ == plain_reply(ascii("HTTP/1.1 200 Ok FOUND"@), contents@),
{
    proof {
        reveal_strlit("HTTP/1.1 200 Ok FOUND");
    }
    reply_with(literal_bytes("HTTP/1.1 200 Ok FOUND"), contents)
}

/// What the first server does for a request.
pub enum Served {
    /// Send these bytes.
    Page(Vec<u8>),
    /// List the files of `res` and send `listing_reply` of them.
    ListFiles,
    /// Send the file at this path, read relative to the working directory,
    /// as `file_reply` frames it.
    ReadFile(String),
}

/// What the first server does for the path `p`.
pub enum FirstAnswer {
    Page(Seq<u8>),
    ListFiles,
    ReadFile(Seq<char>),
}

/// What the first server does for the path `p`: the listing for `/`, the
/// file for a path holding `/res/`, else the not-found page.
pub open spec fn serve_path(p: Seq<char>) -> FirstAnswer {
    if p == "/"@ {
        FirstAnswer::ListFiles
    } else if contains(p, "/res/"@) {
        FirstAnswer::ReadFile(p)
    } else {
        FirstAnswer::Page(plain_reply(ascii("HTTP/1.1 404 ERROENOT FOUND"@), encode_utf8(MISSING_PAGE@)))
    }
}

/// The reply listing the files of `res`.
pub fn listing_reply(files: &Vec<String>) -> (r: Vec<u8>)
    ensures
        r@ == plain_reply(
            ascii("HTTP/1.1 200 OK"@),
            render(LISTING_TEMPLATE@, file_items(names_utf8(files@))),
        ),
{
    proof {
        reveal_strlit("HTTP/1.1 200 OK");
    }
    let contents = listing_page(files);
    reply_with(literal_bytes("HTTP/1.1 200 OK"), contents.as_slice())
}

/// Whether `s` holds `pat`.
fn str_contains(s: &str, pat: &str) -> (r: bool)
    ensures
        r == contains(s@, pat@),
{
    let n = s.unicode_len();
    let m = pat.unicode_len();
    if m > n {
        assert forall|i: int| !contains_at(s@, pat@, i) by {}
        return false;
    }
    let mut i: usize = 0;
    while i <= n - m
        invariant
            n == s@.len(),
            m == pat@.len(),
            m <= n,
            0 <= i <= n - m + 1,
            forall|k: int| 0 <= k < i ==> !contains_at(s@, pat@, k),
        decreases n - m + 1 - i,
    {
        let mut k: usize = 0;
        let mut same = true;
        while k < m
            invariant
                n == s@.len(),
                m == pat@.len(),
                i + m <= n,
                0 <= k <= m,
                same == forall|j: int| 0 <= j < k ==> s@[i + j] == pat@[j],
            decreases m - k,
        {
            if s.get_char(i + k) != pat.get_char(k) {
                same = false;
            }
            k = k + 1;
        }
        if same {
            assert(s@.subrange(i as int, i + m) =~= pat@);
            assert(contains_at(s@, pat@, i as int));
            return true;
        }
        proof {
            if contains_at(s@, pat@, i as int) {
                let j = choose|j: int| 0 <= j < m && s@[i + j] != pat@[j];
                assert(s@.subrange(i as int, i + m)[j] == s@[i + j]);
            }
        }
        i = i + 1;
    }
    assert forall|k: int| !contains_at(s@, pat@, k) by {
        if 0 <= k && k + m <= n {
            assert(k < i);
        }
    }
    false
}

/// The first server's answer to a connection, from the first line of the
/// request: `None` where the line has no second word (no path), and the
/// connection is dropped.
pub fn run(request_line: &str) -> (r: Option<Served>)
    ensures
        words(request_line@).len() < 2 ==> r is None,
        words(request_line@).len() >= 2 ==> match serve_path(words(request_line@)[1]) {
            FirstAnswer::Page(bytes) => r matches Some(Served::Page(v)) && v@ == bytes,
            FirstAnswer::ListFiles => r matches Some(Served::ListFiles),
            FirstAnswer::ReadFile(p) => r matches Some(Served::ReadFile(path)) && path@ == p,
        },
{
    let path = match second_word(request_line) {
        Some(p) => p,
        None => {
            return None;
        },
    };
    proof {
        reveal_strlit("/");
        reveal_strlit("HTTP/1.1 404 ERROENOT FOUND");
    }
    let root = literal_bytes("/");
    let url = path.as_str();
    if bytes_eq(url.as_bytes(), root.as_slice()) {
        proof {
            vstd::utf8::encode_utf8_decode_utf8(url@);
            vstd::utf8::encode_utf8_decode_utf8("/"@);
        }
        return Some(Served::ListFiles);
    }
    proof {
        if url@ == "/"@ {
            assert(encode_utf8(url@) == encode_utf8("/"@));
        }
    }
    if str_contains(url, "/res/") {
        return Some(Served::ReadFile(path));
    }
    let mut page: Vec<u8> = Vec::new();
    append_bytes(&mut page, MISSING_PAGE.as_bytes());
    Some(Served::Page(reply_with(literal_bytes("HTTP/1.1 404 ERROENOT FOUND"), page.as_slice())))
}

} // verus!
