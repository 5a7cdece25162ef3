//! Byte-string helpers shared by the request parser, the response writer and
//! the HTML renderer: literals, trimming, ASCII case folding, splitting and
//! decimal numbers.
use vstd::prelude::*;
use vstd::string::StringSliceAdditionalSpecFns;

verus! {

/// The bytes of an ASCII text.
pub open spec fn lit(s: Seq<char>) -> Seq<u8> {
    Seq::new(s.len(), |i: int| s[i] as u8)
}

/// Appends the bytes of an ASCII string literal.
pub fn push_lit(out: &mut Vec<u8>, s: &str)
    requires
        vstd::string::is_ascii(s),
    ensures
        final(out)@ == old(out)@ + lit(s@),
{
    proof {
        vstd::string::is_ascii_spec_bytes(s);
    }
    out.extend_from_slice(s.as_bytes());
    proof {
        assert(s.spec_bytes() =~= lit(s@));
    }
}

/// Appends a byte string.
pub fn push_bytes(out: &mut Vec<u8>, b: &[u8])
    ensures
        final(out)@ == old(out)@ + b@,
{
    out.extend_from_slice(b);
}

/// A fresh vector holding the bytes of an ASCII string literal.
pub fn lit_vec(s: &str) -> (r: Vec<u8>)
    requires
        vstd::string::is_ascii(s),
    ensures
        r@ == lit(s@),
{
    let mut v: Vec<u8> = Vec::new();
    push_lit(&mut v, s);
    proof {
        assert(v@ =~= lit(s@));
    }
    v
}

/// Copies a slice into a vector.
pub fn to_vec(b: &[u8]) -> (r: Vec<u8>)
    ensures
        r@ == b@,
{
    let mut v: Vec<u8> = Vec::new();
    v.extend_from_slice(b);
    proof {
        assert(v@ =~= b@);
    }
    v
}

/// Copies `b[from..to]` into a vector.
pub fn copy_range(b: &[u8], from: usize, to: usize) -> (r: Vec<u8>)
    requires
        from <= to <= b@.len(),
    ensures
        r@ == b@.subrange(from as int, to as int),
{
    let mut v: Vec<u8> = Vec::new();
    let mut i: usize = from;
    while i < to
        invariant
            from <= i <= to <= b@.len(),
            v@ == b@.subrange(from as int, i as int),
        decreases to - i,
    {
        v.push(b[i]);
        i = i + 1;
        proof {
            assert(v@ =~= b@.subrange(from as int, i as int));
        }
    }
    v
}

/// Byte-wise equality of two byte strings.
pub fn bytes_eq(a: &[u8], b: &[u8]) -> (r: bool)
    ensures
        r == (a@ == b@),
{
    if a.len() != b.len() {
        return false;
    }
    let mut i: usize = 0;
    while i < a.len()
        invariant
            a@.len() == b@.len(),
            i <= a@.len(),
            forall|k: int| 0 <= k < i ==> a@[k] == b@[k],
        decreases a@.len() - i,
    {
        if a[i] != b[i] {
            return false;
        }
        i = i + 1;
    }
    proof {
        assert(a@ =~= b@);
    }
    true
}

/// Whether `s` begins with `prefix`.
pub open spec fn has_prefix(s: Seq<u8>, prefix: Seq<u8>) -> bool {
    prefix.len() <= s.len() && s.subrange(0, prefix.len() as int) == prefix
}

/// Whether `s` ends with `suffix`.
pub open spec fn has_suffix(s: Seq<u8>, suffix: Seq<u8>) -> bool {
    suffix.len() <= s.len() && s.subrange(s.len() - suffix.len(), s.len() as int) == suffix
}

pub fn starts_with(s: &[u8], prefix: &[u8]) -> (r: bool)
    ensures
        r == has_prefix(s@, prefix@),
{
    if prefix.len() > s.len() {
        return false;
    }
    let mut i: usize = 0;
    while i < prefix.len()
        invariant
            prefix@.len() <= s@.len(),
            i <= prefix@.len(),
            forall|k: int| 0 <= k < i ==> s@[k] == prefix@[k],
        decreases prefix@.len() - i,
    {
        if s[i] != prefix[i] {
            proof {
                assert(s@.subrange(0, prefix@.len() as int)[i as int] != prefix@[i as int]);
            }
            return false;
        }
        i = i + 1;
    }
    proof {
        assert(s@.subrange(0, prefix@.len() as int) =~= prefix@);
    }
    true
}

pub fn ends_with(s: &[u8], suffix: &[u8]) -> (r: bool)
    ensures
        r == has_suffix(s@, suffix@),
{
    if suffix.len() > s.len() {
        return false;
    }
    let off: usize = s.len() - suffix.len();
    let mut j: usize = off;
    while j < s.len()
        invariant
            suffix@.len() <= s@.len(),
            off == s@.len() - suffix@.len(),
            off <= j <= s@.len(),
            forall|k: int| 0 <= k < j - off ==> s@[off + k] == suffix@[k],
        decreases s@.len() - j,
    {
        if s[j] != suffix[j - off] {
            proof {
                assert(s@.subrange(off as int, s@.len() as int)[j - off] != suffix@[j - off]);
            }
            return false;
        }
        j = j + 1;
    }
    proof {
        assert(s@.subrange(off as int, s@.len() as int) =~= suffix@);
    }
    true
}

/// The whitespace bytes that `str::trim` removes from ASCII text.
pub open spec fn is_ws(b: u8) -> bool {
    b == 32 || b == 9 || b == 10 || b == 11 || b == 12 || b == 13
}

pub open spec fn trim_start(s: Seq<u8>) -> Seq<u8>
    decreases s.len(),
{
    if s.len() > 0 && is_ws(s[0]) {
        trim_start(s.drop_first())
    } else {
        s
    }
}

pub open spec fn trim_end(s: Seq<u8>) -> Seq<u8>
    decreases s.len(),
{
    if s.len() > 0 && is_ws(s.last()) {
        trim_end(s.drop_last())
    } else {
        s
    }
}

/// `s` without leading and trailing whitespace.
pub open spec fn trim(s: Seq<u8>) -> Seq<u8> {
    trim_end(trim_start(s))
}

fn is_ws_byte(b: u8) -> (r: bool)
    ensures
        r == is_ws(b),
{
    b == 32 || b == 9 || b == 10 || b == 11 || b == 12 || b == 13
}

/// The index at which `trim_start` of `s[from..to]` begins.
pub fn skip_ws(s: &[u8], from: usize, to: usize) -> (a: usize)
    requires
        from <= to <= s@.len(),
    ensures
        from <= a <= to,
        trim_start(s@.subrange(from as int, to as int)) == s@.subrange(a as int, to as int),
{
    let mut a: usize = from;
    while a < to && is_ws_byte(s[a])
        invariant
            from <= a <= to <= s@.len(),
            trim_start(s@.subrange(from as int, to as int)) == trim_start(
                s@.subrange(a as int, to as int),
            ),
        decreases to - a,
    {
        proof {
            assert(s@.subrange(a as int, to as int).drop_first() =~= s@.subrange(
                a + 1,
                to as int,
            ));
        }
        a = a + 1;
    }
    a
}

/// Bounds `[a, b)` of the trimmed part of `s[from..to]`.
pub fn trim_bounds(s: &[u8], from: usize, to: usize) -> (r: (usize, usize))
    requires
        from <= to <= s@.len(),
    ensures
        from <= r.0 <= r.1 <= to,
        trim(s@.subrange(from as int, to as int)) == s@.subrange(r.0 as int, r.1 as int),
{
    let a = skip_ws(s, from, to);
    let mut b: usize = to;
    while b > a && is_ws_byte(s[b - 1])
        invariant
            from <= a <= b <= to <= s@.len(),
            trim_end(s@.subrange(a as int, to as int)) == trim_end(
                s@.subrange(a as int, b as int),
            ),
        decreases b - a,
    {
        proof {
            assert(s@.subrange(a as int, b as int).drop_last() =~= s@.subrange(
                a as int,
                b - 1,
            ));
        }
        b = b - 1;
    }
    (a, b)
}

/// Trims `s[from..to]` into a fresh vector.
pub fn trimmed(s: &[u8], from: usize, to: usize) -> (r: Vec<u8>)
    requires
        from <= to <= s@.len(),
    ensures
        r@ == trim(s@.subrange(from as int, to as int)),
{
    let (a, b) = trim_bounds(s, from, to);
    copy_range(s, a, b)
}

pub open spec fn lower_byte(b: u8) -> u8 {
    if 65 <= b <= 90 {
        (b + 32) as u8
    } else {
        b
    }
}

/// ASCII lower case of every byte.
pub open spec fn lower(s: Seq<u8>) -> Seq<u8> {
    Seq::new(s.len(), |i: int| lower_byte(s[i]))
}

pub fn to_lower(s: &[u8]) -> (r: Vec<u8>)
    ensures
        r@ == lower(s@),
{
    let mut v: Vec<u8> = Vec::new();
    let mut i: usize = 0;
    while i < s.len()
        invariant
            i <= s@.len(),
            v@ == lower(s@.subrange(0, i as int)),
        decreases s@.len() - i,
    {
        let c = s[i];
        let l: u8 = if 65 <= c && c <= 90 {
            c + 32
        } else {
            c
        };
        v.push(l);
        i = i + 1;
        proof {
            assert(v@ =~= lower(s@.subrange(0, i as int)));
        }
    }
    proof {
        assert(s@.subrange(0, s@.len() as int) =~= s@);
    }
    v
}

/// The first index at or after `i` where `b` occurs, or -1.
pub open spec fn find_byte_from(s: Seq<u8>, b: u8, i: int) -> int
    decreases s.len() - i,
{
    if i < 0 || i >= s.len() {
        -1
    } else if s[i] == b {
        i
    } else {
        find_byte_from(s, b, i + 1)
    }
}

pub open spec fn find_byte(s: Seq<u8>, b: u8) -> int {
    find_byte_from(s, b, 0)
}

/// First index of `b` in `s[from..to]`, relative to the whole of `s`.
pub fn index_of(s: &[u8], b: u8, from: usize, to: usize) -> (r: Option<usize>)
    requires
        from <= to <= s@.len(),
    ensures
        match r {
            Some(i) => from <= i < to && i == from + find_byte(
                s@.subrange(from as int, to as int),
                b,
            ),
            None => find_byte(s@.subrange(from as int, to as int), b) == -1,
        },
{
    let ghost t = s@.subrange(from as int, to as int);
    let mut i: usize = from;
    while i < to
        invariant
            from <= i <= to <= s@.len(),
            t == s@.subrange(from as int, to as int),
            find_byte(t, b) == find_byte_from(t, b, i - from),
        decreases to - i,
    {
        if s[i] == b {
            return Some(i);
        }
        i = i + 1;
    }
    None
}

/// The decimal digits of `n`, most significant first, without leading zeros.
pub open spec fn dec(n: nat) -> Seq<u8>
    decreases n,
{
    if n < 10 {
        seq![(48 + n) as u8]
    } else {
        dec(n / 10).push((48 + n % 10) as u8)
    }
}

/// Appends the decimal representation of `n`.
pub fn push_dec(out: &mut Vec<u8>, n: usize)
    ensures
        final(out)@ == old(out)@ + dec(n as nat),
    decreases n,
{
    if n < 10 {
        out.push(48u8 + n as u8);
        proof {
            assert(final(out)@ =~= old(out)@ + dec(n as nat));
        }
    } else {
        push_dec(out, n / 10);
        out.push(48u8 + (n % 10) as u8);
        proof {
            assert(final(out)@ =~= old(out)@ + dec(n as nat));
        }
    }
}

pub open spec fn is_digit(b: u8) -> bool {
    48 <= b <= 57
}

/// The value of a string of decimal digits.
pub open spec fn dec_value(s: Seq<u8>) -> nat
    decreases s.len(),
{
    if s.len() == 0 {
        0
    } else {
        dec_value(s.drop_last()) * 10 + (s.last() - 48) as nat
    }
}

/// What parsing `s` as a `usize` gives, as `str::parse` does: an optional
/// `+`, then a non-empty run of decimal digits whose value fits.
pub open spec fn parse_usize(s: Seq<u8>) -> Option<usize> {
    if s.len() > 0 && s[0] == 43u8 {
        parse_digits(s.subrange(1, s.len() as int))
    } else {
        parse_digits(s)
    }
}

/// A non-empty run of decimal digits whose value fits.
pub open spec fn parse_digits(s: Seq<u8>) -> Option<usize> {
    if s.len() > 0 && (forall|i: int| 0 <= i < s.len() ==> is_digit(#[trigger] s[i]))
        && dec_value(s) <= usize::MAX {
        Some(dec_value(s) as usize)
    } else {
        None
    }
}

/// Parses `s[from..to]` as a decimal `usize`.
pub fn parse_decimal(s: &[u8], from: usize, to: usize) -> (r: Option<usize>)
    requires
        from <= to <= s@.len(),
    ensures
        r == parse_usize(s@.subrange(from as int, to as int)),
{
    if from < to && s[from] == 43u8 {
        proof {
            assert(s@.subrange(from as int, to as int).subrange(1, to - from) =~= s@.subrange(from + 1, to as int));
        }
        parse_run(s, from + 1, to)
    } else {
        parse_run(s, from, to)
    }
}

/// Parses `s[from..to]` as a run of decimal digits.
fn parse_run(s: &[u8], from: usize, to: usize) -> (r: Option<usize>)
    requires
        from <= to <= s@.len(),
    ensures
        r == parse_digits(s@.subrange(from as int, to as int)),
{
    let ghost t = s@.subrange(from as int, to as int);
    if from == to {
        return None;
    }
    let mut acc: usize = 0;
    let mut i: usize = from;
    while i < to
        invariant
            from <= i <= to <= s@.len(),
            t == s@.subrange(from as int, to as int),
            forall|k: int| from <= k < i ==> is_digit(#[trigger] s@[k]),
            acc as nat == dec_value(s@.subrange(from as int, i as int)),
        decreases to - i,
    {
        let c = s[i];
        if c < 48 || c > 57 {
            proof {
                assert(!is_digit(t[i - from]));
            }
            return None;
        }
        let d: usize = (c - 48) as usize;
        proof {
            assert(s@.subrange(from as int, i + 1).drop_last() =~= s@.subrange(
                from as int,
                i as int,
            ));
        }
        if acc > (usize::MAX - d) / 10 {
            proof {
                assert(acc * 10 + d > usize::MAX) by (nonlinear_arith)
                    requires
                        acc > (usize::MAX - d) / 10,
                        d <= 9,
                ;
                assert(t.subrange(0, i + 1 - from) =~= s@.subrange(from as int, i + 1));
                if forall|k: int| 0 <= k < t.len() ==> is_digit(#[trigger] t[k]) {
                    lemma_dec_value_prefix_le(t, (i + 1 - from) as nat);
                }
            }
            return None;
        }
        acc = acc * 10 + d;
        i = i + 1;
    }
    proof {
        assert(s@.subrange(from as int, to as int) =~= t);
        assert forall|k: int| 0 <= k < t.len() implies is_digit(#[trigger] t[k]) by {
            assert(t[k] == s@[from + k]);
        }
    }
    Some(acc)
}

/// Reading more digits never makes the value smaller.
pub proof fn lemma_dec_value_prefix_le(s: Seq<u8>, n: nat)
    requires
        n <= s.len(),
        forall|i: int| 0 <= i < s.len() ==> is_digit(#[trigger] s[i]),
    ensures
        dec_value(s.subrange(0, n as int)) <= dec_value(s),
    decreases s.len(),
{
    if n < s.len() {
        assert(s.drop_last().subrange(0, n as int) =~= s.subrange(0, n as int));
        lemma_dec_value_prefix_le(s.drop_last(), n);
        assert(dec_value(s) >= dec_value(s.drop_last()) * 10);
    } else {
        assert(s.subrange(0, n as int) =~= s);
    }
}

} // verus!
