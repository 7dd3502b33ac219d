//! The HTML pages that the server sends: the index that links to every file,
//! and the page for a file that is not there.

use vstd::prelude::*;
use vstd::utf8::encode_utf8;

use crate::text::{append_bytes, ascii, contains, contains_at, literal_bytes};

verus! {

/// The start of the index page, up to where the links go.
pub const INDEX_START: &'static str = "<!DOCTYPE html>\n<html>\n<head><meta charset=\"utf-8\"><title>Transfer</title></head>\n<body>\n";

/// The end of the index page, after the links.
pub const INDEX_END: &'static str = "</body>\n</html>\n";

/// The page sent for a file that is not there.
pub const NOT_FOUND_BODY: &'static str = "<!DOCTYPE html>\n<html>\n<head><meta charset=\"utf-8\"><title>Not Found</title></head>\n<body><h1>404 Not Found</h1></body>\n</html>\n";

/// The link of the index page to the file `name` (UTF-8 bytes): the name is
/// both the target and the text.
pub open spec fn index_link(name: Seq<u8>) -> Seq<u8> {
    ascii("<a href = "@) + name + ascii(">"@) + name + ascii("<br></a>"@)
}

/// The links to the files `names`, in that order.
pub open spec fn index_links(names: Seq<Seq<u8>>) -> Seq<u8>
    decreases names.len(),
{
    if names.len() == 0 {
        seq![]
    } else {
        index_links(names.drop_last()) + index_link(names.last())
    }
}

/// The index page for the files `names`.
pub open spec fn index_page(names: Seq<Seq<u8>>) -> Seq<u8> {
    encode_utf8(INDEX_START@) + index_links(names) + encode_utf8(INDEX_END@)
}

/// The UTF-8 bytes of each name.
pub open spec fn utf8_names(names: Seq<String>) -> Seq<Seq<u8>> {
    names.map_values(|s: String| encode_utf8(s@))
}

/// The index page that links to each of `names`, in that order.
pub fn join_index(names: &Vec<String>) -> (r: Vec<u8>)
    ensures
        r@ == index_page(utf8_names(names@)),
{
    let mut vec: Vec<u8> = Vec::new();
    append_bytes(&mut vec, INDEX_START.as_bytes());
    proof {
        reveal_strlit("<a href = ");
        reveal_strlit(">");
        reveal_strlit("<br></a>");
    }
    let open_tag = literal_bytes("<a href = ");
    let close_open = literal_bytes(">");
    let close_tag = literal_bytes("<br></a>");
    let ghost all = utf8_names(names@);
    let mut i: usize = 0;
    while i < names.len()
        invariant
            0 <= i <= names@.len(),
            all == utf8_names(names@),
            open_tag@ == ascii("<a href = "@),
            close_open@ == ascii(">"@),
            close_tag@ == ascii("<br></a>"@),
            vec@ == encode_utf8(INDEX_START@) + index_links(all.take(i as int)),
        decreases names@.len() - i,
    {
        let name = names[i].as_str().as_bytes();
        let ghost before = vec@;
        append_bytes(&mut vec, open_tag.as_slice());
        append_bytes(&mut vec, name);
        append_bytes(&mut vec, close_open.as_slice());
        append_bytes(&mut vec, name);
        append_bytes(&mut vec, close_tag.as_slice());
        proof {
            assert(all.take(i + 1).drop_last() =~= all.take(i as int));
            assert(all.take(i + 1).last() == encode_utf8(names@[i as int]@));
            assert(vec@ =~= before + index_link(all[i as int]));
        }
        i = i + 1;
    }
    append_bytes(&mut vec, INDEX_END.as_bytes());
    assert(all.take(names@.len() as int) =~= all);
    vec
}

/// The links to two lists of files, one after the other, are the links to
/// the first list followed by the links to the second.
pub proof fn lemma_links_concat(xs: Seq<Seq<u8>>, ys: Seq<Seq<u8>>)
    ensures
        index_links(xs + ys) == index_links(xs) + index_links(ys),
    decreases ys.len(),
{
    if ys.len() == 0 {
        assert(xs + ys =~= xs);
        assert(index_links(xs) + index_links(ys) =~= index_links(xs));
    } else {
        lemma_links_concat(xs, ys.drop_last());
        assert((xs + ys).drop_last() =~= xs + ys.drop_last());
        assert((xs + ys).last() == ys.last());
        assert(index_links(xs + ys) =~= index_links(xs) + index_links(ys));
    }
}

/// The index page of two lists of files, one after the other, is the page of
/// the first without its end, followed by the page of the second without its
/// start.
pub proof fn law_index_page_concat(xs: Seq<Seq<u8>>, ys: Seq<Seq<u8>>)
    ensures
        ({
            let a = index_page(xs);
            let b = index_page(ys);
            index_page(xs + ys) == a.take(a.len() - encode_utf8(INDEX_END@).len()) + b.skip(
                encode_utf8(INDEX_START@).len() as int,
            )
        }),
{
    lemma_links_concat(xs, ys);
    let start = encode_utf8(INDEX_START@);
    let end = encode_utf8(INDEX_END@);
    let a = index_page(xs);
    let b = index_page(ys);
    assert(a.take(a.len() - end.len()) =~= start + index_links(xs));
    assert(b.skip(start.len() as int) =~= index_links(ys) + end);
    assert(index_page(xs + ys) =~= a.take(a.len() - end.len()) + b.skip(start.len() as int));
}

/// The index page of one file holds one link, whose target and text are
/// both exactly the file's name.
pub proof fn law_index_page_one_name(name: Seq<u8>)
    ensures
        index_page(seq![name]) == encode_utf8(INDEX_START@) + ascii("<a href = "@) + name + ascii(
            ">"@,
        ) + name + ascii("<br></a>"@) + encode_utf8(INDEX_END@),
{
    assert(seq![name].drop_last() =~= Seq::<Seq<u8>>::empty());
    assert(seq![name].last() == name);
    assert(index_links(Seq::<Seq<u8>>::empty()) =~= Seq::<u8>::empty());
    assert(index_links(seq![name]) =~= index_link(name));
    assert(index_page(seq![name]) =~= encode_utf8(INDEX_START@) + ascii("<a href = "@) + name
        + ascii(">"@) + name + ascii("<br></a>"@) + encode_utf8(INDEX_END@));
}

/// Every file of the list has its link on the index page: the bytes
/// `<a href = ` + name + `>` + name + `<br></a>`, with the name unchanged.
pub proof fn law_index_links_every_name(names: Seq<Seq<u8>>, i: int)
    requires
        0 <= i < names.len(),
    ensures
        contains(
            index_page(names),
            ascii("<a href = "@) + names[i] + ascii(">"@) + names[i] + ascii("<br></a>"@),
        ),
{
    let pre = names.take(i);
    let one = seq![names[i]];
    let post = names.skip(i + 1);
    assert(names =~= pre + one + post);
    lemma_links_concat(pre + one, post);
    lemma_links_concat(pre, one);
    assert(one.drop_last() =~= Seq::<Seq<u8>>::empty());
    assert(one.last() == names[i]);
    assert(index_links(Seq::<Seq<u8>>::empty()) =~= Seq::<u8>::empty());
    let link = ascii("<a href = "@) + names[i] + ascii(">"@) + names[i] + ascii("<br></a>"@);
    assert(index_links(one) =~= link);
    let start = encode_utf8(INDEX_START@);
    let k = start.len() + index_links(pre).len();
    let page = index_page(names);
    assert(page =~= start + index_links(pre) + link + index_links(post) + encode_utf8(
        INDEX_END@,
    ));
    assert(page.subrange(k as int, (k + link.len()) as int) =~= link);
    assert(contains_at(page, link, k as int));
}

} // verus!
