//! Substring search over raw bytes, used to find the end of a request head
//! and the multipart boundaries inside upload data.
use vstd::prelude::*;
use vstd::slice::slice_subrange;

verus! {

/// A haystack for the Boyer-Moore searcher: any byte slice.
pub struct BMBuf<'a>(pub &'a [u8]);

impl<'a> BMBuf<'a> {
    pub fn len(&self) -> (r: usize)
        ensures
            r == self.0@.len(),
    {
        self.0.len()
    }

    pub fn value_at(&self, index: usize) -> (r: u8)
        requires
            index < self.0@.len(),
        ensures
            r == self.0@[index as int],
    {
        self.0[index]
    }
}

/// `n` occurs in `h` at position `i`.
pub open spec fn matches_at(h: Seq<u8>, n: Seq<u8>, i: int) -> bool {
    0 <= i && i + n.len() <= h.len() && h.subrange(i, i + n.len()) == n
}

/// `i` is the position of the first occurrence of `n` in `h`.
pub open spec fn is_first_match(h: Seq<u8>, n: Seq<u8>, i: int) -> bool {
    matches_at(h, n, i) && forall|j: int| 0 <= j < i ==> !#[trigger] matches_at(h, n, j)
}

/// `n` does not occur in `h`.
pub open spec fn no_match(h: Seq<u8>, n: Seq<u8>) -> bool {
    forall|j: int| !#[trigger] matches_at(h, n, j)
}

/// Relies on `boyer_moore_magiclen::BMByte::from`, which builds a searcher
/// for any non-empty pattern, and `BMByte::find_first_in`, which returns the
/// position of the first occurrence of the pattern in the text, if any.
#[verifier::external_body]
fn bm_find_first(pattern: &[u8], hay: &BMBuf) -> (r: Option<usize>)
    requires
        pattern@.len() > 0,
    ensures
        match r {
            Some(i) => is_first_match(hay.0@, pattern@, i as int),
            None => no_match(hay.0@, pattern@),
        },
{
    match boyer_moore_magiclen::BMByte::from(pattern.to_vec()) {
        Some(searcher) => searcher.find_first_in(hay.0.to_vec()),
        None => None,
    }
}

/// The first occurrence of `pattern` in `buf[from..to]`, as a position in
/// `buf`.
pub fn find_in(pattern: &[u8], buf: &[u8], from: usize, to: usize) -> (r: Option<usize>)
    requires
        pattern@.len() > 0,
        from <= to <= buf@.len(),
    ensures
        match r {
            Some(i) => from <= i && is_first_match(
                buf@.subrange(from as int, to as int),
                pattern@,
                i - from,
            ),
            None => no_match(buf@.subrange(from as int, to as int), pattern@),
        },
{
    let window = BMBuf(slice_subrange(buf, from, to));
    match bm_find_first(pattern, &window) {
        Some(i) => {
            proof {
                assert(i + pattern@.len() <= to - from);
            }
            Some(from + i)
        },
        None => None,
    }
}

/// The bytes that end a request head: an empty line.
pub open spec fn head_end() -> Seq<u8> {
    seq![13u8, 10u8, 13u8, 10u8]
}

/// Where the body begins: just past the first blank line of `buffer`, if
/// there is one.
pub fn find_body_start(buffer: &[u8]) -> (r: Option<usize>)
    ensures
        match r {
            Some(i) => 4 <= i <= buffer@.len() && is_first_match(buffer@, head_end(), i - 4),
            None => no_match(buffer@, head_end()),
        },
{
    let delim: Vec<u8> = vec![13u8, 10u8, 13u8, 10u8];
    proof {
        assert(delim@ =~= head_end());
        assert(buffer@.subrange(0, buffer@.len() as int) =~= buffer@);
    }
    match find_in(delim.as_slice(), buffer, 0, buffer.len()) {
        Some(i) => Some(i + 4),
        None => None,
    }
}

} // verus!
