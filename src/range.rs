//! Byte ranges: the `Range: bytes=<start>-<end>` request header, the part of
//! a body that a range selects, and the `Content-Range` value sent back.
use vstd::prelude::*;
use crate::text::{dec_value, is_digit, dec, find_byte_from, has_prefix, index_of, lit, parse_decimal, parse_usize, push_dec, push_lit, starts_with, lit_vec};

verus! {

/// A decoded `Range` header: the first byte and, if given, the last one.
#[derive(Clone, Copy, Debug, PartialEq, Eq, Structural)]
pub struct ContentRange {
    pub start: usize,
    pub end: Option<usize>,
}

/// What a `Range` value denotes: it starts with `bytes=`, then an optional
/// start, a `-`, and an optional end. An empty start means 0; an empty end
/// means the end of the body. An end of 0, or a start after the end, is
/// malformed.
pub open spec fn range_spec(s: Seq<u8>) -> Option<ContentRange> {
    let d = find_byte_from(s, 45u8, 6);
    if !has_prefix(s, lit("bytes="@)) || d < 0 {
        None
    } else {
        let st = s.subrange(6, d);
        let en = s.subrange(d + 1, s.len() as int);
        let start = if st.len() == 0 {
            Some(0usize)
        } else {
            parse_usize(st)
        };
        if start is None {
            None
        } else if en.len() == 0 {
            Some(ContentRange { start: start->Some_0, end: None })
        } else if parse_usize(en) is None {
            None
        } else {
            let e = parse_usize(en)->Some_0;
            if e == 0 || start->Some_0 > e {
                None
            } else {
                Some(ContentRange { start: start->Some_0, end: Some(e) })
            }
        }
    }
}

/// Decodes a `Range` header value; `None` when it is malformed.
pub fn decode_content_range(range_str: &[u8]) -> (r: Option<ContentRange>)
    ensures
        r == range_spec(range_str@),
{
    proof {
        reveal_strlit("bytes=");
    }
    let prefix = lit_vec("bytes=");
    if !starts_with(range_str, prefix.as_slice()) {
        return None;
    }
    let n = range_str.len();
    let ghost s = range_str@;
    let dash = index_of(range_str, 45u8, 6, n);
    proof {
        lemma_find_byte_from_shift(s, 45u8, 6);
    }
    let d = match dash {
        Some(d) => d,
        None => {
            return None;
        },
    };
    let start: usize = if d == 6 {
        0
    } else {
        match parse_decimal(range_str, 6, d) {
            Some(v) => v,
            None => {
                return None;
            },
        }
    };
    if d + 1 == n {
        return Some(ContentRange { start, end: None });
    }
    let end = match parse_decimal(range_str, d + 1, n) {
        Some(v) => v,
        None => {
            return None;
        },
    };
    if end == 0 || start > end {
        None
    } else {
        Some(ContentRange { start, end: Some(end) })
    }
}

/// A search in a suffix finds what a search from that offset finds.
proof fn lemma_find_byte_from_shift(s: Seq<u8>, b: u8, from: int)
    requires
        0 <= from <= s.len(),
    ensures
        find_byte_from(s, b, from) == -1 <==> crate::text::find_byte(
            s.subrange(from, s.len() as int),
            b,
        ) == -1,
        find_byte_from(s, b, from) != -1 ==> find_byte_from(s, b, from) == from
            + crate::text::find_byte(s.subrange(from, s.len() as int), b),
{
    lemma_shift_at(s, b, from, 0);
}

proof fn lemma_shift_at(s: Seq<u8>, b: u8, from: int, j: int)
    requires
        0 <= from <= s.len(),
        0 <= j <= s.len() - from,
    ensures
        find_byte_from(s, b, from + j) == -1 <==> find_byte_from(
            s.subrange(from, s.len() as int),
            b,
            j,
        ) == -1,
        find_byte_from(s, b, from + j) != -1 ==> find_byte_from(s, b, from + j) == from
            + find_byte_from(s.subrange(from, s.len() as int), b, j),
    decreases s.len() - from - j,
{
    if j < s.len() - from {
        lemma_shift_at(s, b, from, j + 1);
    }
}

/// The first byte sent and the number of bytes sent for a range over a body
/// of `total` bytes: the start is clamped to the body, and so is the length.
pub open spec fn effective_range(r: ContentRange, total: usize) -> (usize, usize) {
    let s = if r.start <= total {
        r.start
    } else {
        total
    };
    let len = match r.end {
        Some(e) => if e >= total {
            (total - s) as usize
        } else if e < s {
            0usize
        } else {
            (e + 1 - s) as usize
        },
        None => (total - s) as usize,
    };
    (s, len)
}

/// The first byte and length to send for `range` over `total` bytes.
pub fn resolve_range(range: &ContentRange, total: usize) -> (r: (usize, usize))
    ensures
        r == effective_range(*range, total),
        r.0 + r.1 <= total,
{
    let s = if range.start <= total {
        range.start
    } else {
        total
    };
    let len = match range.end {
        Some(e) => if e >= total {
            total - s
        } else if e < s {
            0
        } else {
            e + 1 - s
        },
        None => total - s,
    };
    (s, len)
}

/// The bytes of `content` that a range request is answered with.
pub open spec fn ranged_body(content: Seq<u8>, r: ContentRange) -> Seq<u8> {
    let (s, len) = effective_range(r, content.len() as usize);
    content.subrange(s as int, s + len)
}

/// Three range requests that cover a body end to end, `[0, s-1]`, `[s, e]`
/// and `[e+1, N-1]`, are answered with bytes that together are the body.
pub proof fn lemma_ranges_concatenate(content: Seq<u8>, s: usize, e: usize)
    requires
        content.len() <= usize::MAX,
        1 <= s <= e,
        e + 1 < content.len(),
    ensures
        ranged_body(content, ContentRange { start: 0, end: Some((s - 1) as usize) })
            + ranged_body(content, ContentRange { start: s, end: Some(e) })
            + ranged_body(content, ContentRange { start: (e + 1) as usize, end: Some((content.len() - 1) as usize) })
            == content,
{
    let n = content.len() as int;
    assert(ranged_body(content, ContentRange { start: 0, end: Some((s - 1) as usize) })
        == content.subrange(0, s as int));
    assert(ranged_body(content, ContentRange { start: s, end: Some(e) }) == content.subrange(
        s as int,
        e + 1,
    ));
    assert(ranged_body(content, ContentRange { start: (e + 1) as usize, end: Some((n - 1) as usize) })
        == content.subrange(e + 1, n));
    assert(content.subrange(0, s as int) + content.subrange(s as int, e + 1) + content.subrange(
        e + 1,
        n,
    ) =~= content);
}

/// The last byte named in a `Content-Range` value: the start when nothing is
/// sent.
pub open spec fn range_last(start: usize, len: usize) -> nat {
    if len >= 1 {
        (start + len - 1) as nat
    } else {
        start as nat
    }
}

/// The `Content-Range` value: `bytes <start>-<last>/<total>`.
pub open spec fn content_range_text(start: usize, len: usize, total: usize) -> Seq<u8> {
    lit("bytes "@) + dec(start as nat) + seq![45u8] + dec(range_last(start, len)) + seq![47u8]
        + dec(total as nat)
}

pub fn content_range_value(start: usize, len: usize, total: usize) -> (r: Vec<u8>)
    requires
        start + len <= total,
    ensures
        r@ == content_range_text(start, len, total),
{
    let mut v: Vec<u8> = Vec::new();
    proof {
        reveal_strlit("bytes ");
    }
    push_lit(&mut v, "bytes ");
    push_dec(&mut v, start);
    v.push(45u8);
    let last: usize = if len >= 1 {
        start + len - 1
    } else {
        start
    };
    push_dec(&mut v, last);
    v.push(47u8);
    push_dec(&mut v, total);
    proof {
        assert(v@ =~= content_range_text(start, len, total));
    }
    v
}

/// The `Range` value `bytes=<a>-<b>`.
pub open spec fn range_header(a: nat, b: nat) -> Seq<u8> {
    lit("bytes="@) + dec(a) + seq![45u8] + dec(b)
}

/// Decimal digits read back as the number they were written from.
pub proof fn lemma_dec_parses(n: nat)
    ensures
        dec(n).len() > 0,
        forall|i: int| 0 <= i < dec(n).len() ==> is_digit(#[trigger] dec(n)[i]),
        dec_value(dec(n)) == n,
    decreases n,
{
    if n >= 10 {
        lemma_dec_parses(n / 10);
        let d = dec(n);
        assert(d.drop_last() =~= dec(n / 10));
        assert forall|i: int| 0 <= i < d.len() implies is_digit(#[trigger] d[i]) by {
            if i < d.len() - 1 {
                assert(d[i] == dec(n / 10)[i]);
            }
        }
        assert(d.last() == (48 + n % 10) as u8);
        assert((d.last() - 48) as nat == n % 10);
        assert(dec_value(d) == dec_value(dec(n / 10)) * 10 + n % 10);
        assert((n / 10) * 10 + n % 10 == n) by (nonlinear_arith);
    } else {
        let d = dec(n);
        assert(d.drop_last() =~= Seq::<u8>::empty());
        assert(dec_value(d.drop_last()) == 0);
        assert(d.last() == (48 + n) as u8);
        assert(dec_value(d) == n);
    }
}

proof fn lemma_find_byte_at(s: Seq<u8>, b: u8, i: int, j: int)
    requires
        0 <= i <= j < s.len(),
        s[j] == b,
        forall|k: int| i <= k < j ==> s[k] != b,
    ensures
        find_byte_from(s, b, i) == j,
    decreases j - i,
{
    if i < j {
        lemma_find_byte_at(s, b, i + 1, j);
    }
}

/// `bytes=<a>-<b>` with `0 < b` and `a <= b` decodes to the range from `a`
/// to `b`.
pub proof fn lemma_range_header_decodes(a: usize, b: usize)
    requires
        0 < b,
        a <= b,
    ensures
        range_spec(range_header(a as nat, b as nat)) == Some(ContentRange { start: a, end: Some(b) }),
{
    reveal_strlit("bytes=");
    let s = range_header(a as nat, b as nat);
    let da = dec(a as nat);
    let db = dec(b as nat);
    lemma_dec_parses(a as nat);
    lemma_dec_parses(b as nat);
    let d: int = 6 + da.len() as int;
    assert(lit("bytes="@).len() == 6);
    assert(s.subrange(0, 6) =~= lit("bytes="@));
    assert(s[d] == 45u8);
    assert forall|k: int| 6 <= k < d implies s[k] != 45u8 by {
        assert(s[k] == da[k - 6]);
        assert(is_digit(da[k - 6]));
    }
    lemma_find_byte_at(s, 45u8, 6, d);
    assert(s.subrange(6, d) =~= da);
    assert(s.subrange(d + 1, s.len() as int) =~= db);
}

/// The bytes sent for the `Range` header `bytes=<a>-<b>`, or nothing when
/// that range is empty.
pub open spec fn header_piece(content: Seq<u8>, a: int, b: int) -> Seq<u8> {
    if a > b {
        seq![]
    } else {
        ranged_body(content, range_spec(range_header(a as nat, b as nat))->Some_0)
    }
}

/// Ranged requests for `[0, s-1]`, `[s, e]` and `[e+1, N-1]`, written as
/// `Range` headers, are answered with bytes that together are the body;
/// an empty outer range is left out. Each header that is sent decodes.
/// `s = 1` is left out: its first range is `bytes=0-0`, which is malformed
/// (an end of 0); so is `e = 0`.
pub proof fn lemma_range_headers_concatenate(content: Seq<u8>, s: usize, e: usize)
    requires
        content.len() <= usize::MAX,
        s != 1,
        s <= e,
        1 <= e,
        e < content.len(),
    ensures
        s >= 2 ==> range_spec(range_header(0, (s - 1) as nat)) is Some,
        range_spec(range_header(s as nat, e as nat)) is Some,
        e + 1 < content.len() ==> range_spec(range_header((e + 1) as nat, (content.len() - 1) as nat)) is Some,
        header_piece(content, 0, s - 1) + header_piece(content, s as int, e as int) + header_piece(
            content,
            e + 1,
            content.len() - 1,
        ) == content,
{
    let n = content.len() as int;
    lemma_range_header_decodes(s, e);
    let mid = range_spec(range_header(s as nat, e as nat))->Some_0;
    assert(ranged_body(content, mid) == content.subrange(s as int, e + 1));
    if s >= 2 {
        lemma_range_header_decodes(0, (s - 1) as usize);
        let first = range_spec(range_header(0, (s - 1) as nat))->Some_0;
        assert(ranged_body(content, first) == content.subrange(0, s as int));
    } else {
        assert(content.subrange(0, 0) =~= Seq::<u8>::empty());
    }
    if e + 1 < n {
        lemma_range_header_decodes((e + 1) as usize, (n - 1) as usize);
        let last = range_spec(range_header((e + 1) as nat, (n - 1) as nat))->Some_0;
        assert(ranged_body(content, last) == content.subrange(e + 1, n));
    } else {
        assert(content.subrange(n, n) =~= Seq::<u8>::empty());
    }
    assert(content.subrange(0, s as int) + content.subrange(s as int, e + 1) + content.subrange(
        e + 1,
        n,
    ) =~= content);
}

} // verus!
