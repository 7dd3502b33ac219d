//! Byte-level text helpers: decimal numerals, ASCII literals, lower-casing
//! and comparisons, each with an exact specification.

use vstd::prelude::*;
use vstd::string::is_ascii;
use vstd::utf8::encode_utf8;

verus! {

broadcast use vstd::string::is_ascii_spec_bytes;

/// The bytes of an ASCII text: each character taken as its code.
pub open spec fn ascii(s: Seq<char>) -> Seq<u8> {
    s.map_values(|c: char| c as u8)
}

/// The decimal numeral of `n`, most significant digit first, without
/// leading zeros (`0` is the single digit `0`).
pub open spec fn decimal(n: nat) -> Seq<u8>
    decreases n,
{
    if n < 10 {
        seq![(48 + n) as u8]
    } else {
        decimal(n / 10).push((48 + n % 10) as u8)
    }
}

/// ASCII lower-casing of one byte; every other byte is unchanged.
pub open spec fn lower_byte(b: u8) -> u8 {
    if 65 <= b <= 90 {
        (b + 32) as u8
    } else {
        b
    }
}

/// ASCII lower-casing of a byte string.
pub open spec fn lower(s: Seq<u8>) -> Seq<u8> {
    s.map_values(|b: u8| lower_byte(b))
}

/// A byte that may stand in a header value that is shown as text:
/// visible ASCII, space or horizontal tab.
pub open spec fn visible_byte(b: u8) -> bool {
    (32 <= b && b < 127) || b == 9
}

/// Every byte of `s` is visible ASCII, space or tab.
pub open spec fn visible(s: Seq<u8>) -> bool {
    forall|i: int| 0 <= i < s.len() ==> visible_byte(#[trigger] s[i])
}

/// `s` holds `pat` at some position.
pub open spec fn contains_at<T>(s: Seq<T>, pat: Seq<T>, i: int) -> bool {
    0 <= i && i + pat.len() <= s.len() && s.subrange(i, i + pat.len()) == pat
}

/// `s` holds `pat` somewhere.
pub open spec fn contains<T>(s: Seq<T>, pat: Seq<T>) -> bool {
    exists|i: int| contains_at(s, pat, i)
}

/// The decimal numeral of `n`.
pub fn decimal_bytes(n: u64) -> (r: Vec<u8>)
    ensures
        r@ == decimal(n as nat),
    decreases n,
{
    if n < 10 {
        let mut v = Vec::new();
        v.push((48 + n) as u8);
        assert(v@ == seq![(48 + n) as u8]);
        v
    } else {
        let mut v = decimal_bytes(n / 10);
        v.push((48 + n % 10) as u8);
        v
    }
}

/// The bytes of an ASCII string.
pub fn literal_bytes(s: &str) -> (r: Vec<u8>)
    requires
        is_ascii(s),
    ensures
        r@ == ascii(s@),
        r@ == encode_utf8(s@),
{
    let b = s.as_bytes();
    let mut v: Vec<u8> = Vec::new();
    append_bytes(&mut v, b);
    assert(v@ =~= ascii(s@));
    v
}

/// Appends `src` to `dst`.
pub fn append_bytes(dst: &mut Vec<u8>, src: &[u8])
    ensures
        final(dst)@ == old(dst)@ + src@,
{
    let ghost before = dst@;
    dst.extend_from_slice(src);
    assert(dst@ =~= before + src@);
}

/// Whether two byte strings are equal.
pub fn bytes_eq(a: &[u8], b: &[u8]) -> (r: bool)
    ensures
        r == (a@ == b@),
{
    if a.len() != b.len() {
        return false;
    }
    let mut i: usize = 0;
    while i < a.len()
        invariant
            a@.len() == b@.len(),
            0 <= i <= a@.len(),
            forall|j: int| 0 <= j < i ==> a@[j] == b@[j],
        decreases a@.len() - i,
    {
        if a[i] != b[i] {
            return false;
        }
        i = i + 1;
    }
    assert(a@ =~= b@);
    true
}

/// ASCII lower-casing of a byte string.
pub fn lowercase(s: &[u8]) -> (r: Vec<u8>)
    ensures
        r@ == lower(s@),
{
    let mut v: Vec<u8> = Vec::new();
    let mut i: usize = 0;
    while i < s.len()
        invariant
            0 <= i <= s@.len(),
            v@ =~= lower(s@.subrange(0, i as int)),
        decreases s@.len() - i,
    {
        let b = s[i];
        let l = if 65 <= b && b <= 90 { b + 32 } else { b };
        v.push(l);
        i = i + 1;
        assert(v@ =~= lower(s@.subrange(0, i as int)));
    }
    assert(s@.subrange(0, s@.len() as int) =~= s@);
    v
}

} // verus!
