//! The HTTP vocabulary (methods, versions, statuses) and the request-side
//! grammar: the request head, percent-decoding, `Range` and the multipart
//! boundary parameter.
use vstd::prelude::*;
use crate::text::{
    bytes_eq, copy_range, find_byte, has_prefix, index_of, lit, lit_vec, lower, skip_ws,
    starts_with, to_lower, trim, trim_start, trimmed,
};

verus! {

#[derive(Clone, Copy, Debug, PartialEq, Eq, Structural)]
pub enum HttpMethod {
    GET,
    HEAD,
    POST,
}

#[derive(Clone, Copy, Debug, PartialEq, Eq, Structural)]
pub enum HttpVersion {
    Http1_0,
    Http1_1,
}

pub open spec fn version_text(v: HttpVersion) -> Seq<char> {
    match v {
        HttpVersion::Http1_0 => "HTTP/1.0"@,
        HttpVersion::Http1_1 => "HTTP/1.1"@,
    }
}

pub fn version_to_str(v: &HttpVersion) -> (r: &'static str)
    ensures
        r@ == version_text(*v),
        vstd::string::is_ascii(r),
{
    match v {
        HttpVersion::Http1_0 => {
            proof {
                reveal_strlit("HTTP/1.0");
            }
            "HTTP/1.0"
        },
        HttpVersion::Http1_1 => {
            proof {
                reveal_strlit("HTTP/1.1");
            }
            "HTTP/1.1"
        },
    }
}

/// A response status.
#[derive(Clone, Copy, Debug, PartialEq, Eq, Structural)]
pub enum HttpStatus {
    Continue,
    OK,
    Created,
    PartialContent,
    BadRequest,
    PermissionDenied,
    NotFound,
    MethodNotAllowed,
    PayloadTooLarge,
    UnprocessableEntity,
    RequestHeadersTooLarge,
    ServerError,
    NotImplemented,
    ServiceUnavailable,
    HttpVersionNotSupported,
}

/// The numeric code sent for each status.
pub open spec fn status_code(s: HttpStatus) -> u16 {
    match s {
        HttpStatus::Continue => 100,
        HttpStatus::OK => 200,
        HttpStatus::Created => 201,
        HttpStatus::PartialContent => 206,
        HttpStatus::BadRequest => 401,
        HttpStatus::PermissionDenied => 403,
        HttpStatus::NotFound => 404,
        HttpStatus::MethodNotAllowed => 405,
        HttpStatus::PayloadTooLarge => 413,
        HttpStatus::UnprocessableEntity => 422,
        HttpStatus::RequestHeadersTooLarge => 431,
        HttpStatus::ServerError => 500,
        HttpStatus::NotImplemented => 501,
        HttpStatus::ServiceUnavailable => 503,
        HttpStatus::HttpVersionNotSupported => 505,
    }
}

/// The reason phrase sent for each status.
pub open spec fn status_text(s: HttpStatus) -> Seq<char> {
    match s {
        HttpStatus::Continue => "Continue"@,
        HttpStatus::OK => "OK"@,
        HttpStatus::Created => "Created"@,
        HttpStatus::PartialContent => "Partial content"@,
        HttpStatus::BadRequest => "Bad request"@,
        HttpStatus::PermissionDenied => "Permission denied"@,
        HttpStatus::NotFound => "Not found"@,
        HttpStatus::MethodNotAllowed => "Method not allowed"@,
        HttpStatus::PayloadTooLarge => "Payload too large"@,
        HttpStatus::UnprocessableEntity => "Unprocessable entity"@,
        HttpStatus::RequestHeadersTooLarge => "Request header fields too large"@,
        HttpStatus::ServerError => "Server error"@,
        HttpStatus::NotImplemented => "Method not implemented"@,
        HttpStatus::ServiceUnavailable => "Service unavailable"@,
        HttpStatus::HttpVersionNotSupported => "HTTP version not supported"@,
    }
}

pub fn status_to_code(status: &HttpStatus) -> (r: u16)
    ensures
        r == status_code(*status),
{
    match status {
        HttpStatus::Continue => 100,
        HttpStatus::OK => 200,
        HttpStatus::Created => 201,
        HttpStatus::PartialContent => 206,
        HttpStatus::BadRequest => 401,
        HttpStatus::PermissionDenied => 403,
        HttpStatus::NotFound => 404,
        HttpStatus::MethodNotAllowed => 405,
        HttpStatus::PayloadTooLarge => 413,
        HttpStatus::UnprocessableEntity => 422,
        HttpStatus::RequestHeadersTooLarge => 431,
        HttpStatus::ServerError => 500,
        HttpStatus::NotImplemented => 501,
        HttpStatus::ServiceUnavailable => 503,
        HttpStatus::HttpVersionNotSupported => 505,
    }
}

pub fn status_to_message(status: &HttpStatus) -> (r: &'static str)
    ensures
        r@ == status_text(*status),
        vstd::string::is_ascii(r),
{
    match status {
        HttpStatus::Continue => {
            proof {
                reveal_strlit("Continue");
            }
            "Continue"
        },
        HttpStatus::OK => {
            proof {
                reveal_strlit("OK");
            }
            "OK"
        },
        HttpStatus::Created => {
            proof {
                reveal_strlit("Created");
            }
            "Created"
        },
        HttpStatus::PartialContent => {
            proof {
                reveal_strlit("Partial content");
            }
            "Partial content"
        },
        HttpStatus::BadRequest => {
            proof {
                reveal_strlit("Bad request");
            }
            "Bad request"
        },
        HttpStatus::PermissionDenied => {
            proof {
                reveal_strlit("Permission denied");
            }
            "Permission denied"
        },
        HttpStatus::NotFound => {
            proof {
                reveal_strlit("Not found");
            }
            "Not found"
        },
        HttpStatus::MethodNotAllowed => {
            proof {
                reveal_strlit("Method not allowed");
            }
            "Method not allowed"
        },
        HttpStatus::PayloadTooLarge => {
            proof {
                reveal_strlit("Payload too large");
            }
            "Payload too large"
        },
        HttpStatus::UnprocessableEntity => {
            proof {
                reveal_strlit("Unprocessable entity");
            }
            "Unprocessable entity"
        },
        HttpStatus::RequestHeadersTooLarge => {
            proof {
                reveal_strlit("Request header fields too large");
            }
            "Request header fields too large"
        },
        HttpStatus::ServerError => {
            proof {
                reveal_strlit("Server error");
            }
            "Server error"
        },
        HttpStatus::NotImplemented => {
            proof {
                reveal_strlit("Method not implemented");
            }
            "Method not implemented"
        },
        HttpStatus::ServiceUnavailable => {
            proof {
                reveal_strlit("Service unavailable");
            }
            "Service unavailable"
        },
        HttpStatus::HttpVersionNotSupported => {
            proof {
                reveal_strlit("HTTP version not supported");
            }
            "HTTP version not supported"
        },
    }
}

// ---------------------------------------------------------------------------
// Percent-decoding

pub open spec fn is_hex(b: u8) -> bool {
    (48 <= b <= 57) || (97 <= b <= 102) || (65 <= b <= 70)
}

pub open spec fn hex_val(b: u8) -> u8 {
    if 48 <= b <= 57 {
        (b - 48) as u8
    } else if 97 <= b <= 102 {
        (b - 87) as u8
    } else {
        (b - 55) as u8
    }
}

/// `s[i..]` with every `%HH` replaced by the byte it names, scanning from the
/// left; a `%` that does not start such a triple stays as it is.
pub open spec fn pct_decode_from(s: Seq<u8>, i: int) -> Seq<u8>
    decreases s.len() - i,
{
    if i < 0 || i >= s.len() {
        seq![]
    } else if i + 2 < s.len() && s[i] == 37 && is_hex(s[i + 1]) && is_hex(s[i + 2]) {
        seq![(hex_val(s[i + 1]) * 16 + hex_val(s[i + 2])) as u8] + pct_decode_from(s, i + 3)
    } else {
        seq![s[i]] + pct_decode_from(s, i + 1)
    }
}

pub open spec fn pct_decode(s: Seq<u8>) -> Seq<u8> {
    pct_decode_from(s, 0)
}

/// The upper-case hex digit of a value below 16.
pub open spec fn hex_digit(n: u8) -> u8 {
    if n < 10 {
        (48 + n) as u8
    } else {
        (55 + n) as u8
    }
}

/// Every byte of `s` written as `%HH`.
pub open spec fn pct_encode(s: Seq<u8>) -> Seq<u8> {
    Seq::new(
        3 * s.len(),
        |j: int|
            if j % 3 == 0 {
                37u8
            } else if j % 3 == 1 {
                hex_digit(s[j / 3] / 16)
            } else {
                hex_digit(s[j / 3] % 16)
            },
    )
}

/// Percent-decoding undoes percent-encoding, for any byte string.
pub proof fn lemma_percent_round_trip(s: Seq<u8>)
    ensures
        pct_decode(pct_encode(s)) == s,
{
    lemma_percent_round_trip_from(s, 0);
    assert(s.subrange(0, s.len() as int) =~= s);
}

proof fn lemma_percent_round_trip_from(s: Seq<u8>, k: int)
    requires
        0 <= k <= s.len(),
    ensures
        pct_decode_from(pct_encode(s), 3 * k) == s.subrange(k, s.len() as int),
    decreases s.len() - k,
{
    let t = pct_encode(s);
    if k < s.len() {
        lemma_percent_round_trip_from(s, k + 1);
        let b = s[k];
        assert((3 * k) % 3 == 0 && (3 * k + 1) % 3 == 1 && (3 * k + 2) % 3 == 2) by (nonlinear_arith);
        assert((3 * k + 1) / 3 == k && (3 * k + 2) / 3 == k) by (nonlinear_arith)
            requires
                0 <= k,
        ;
        assert(t[3 * k] == 37u8);
        assert(t[3 * k + 1] == hex_digit(b / 16));
        assert(t[3 * k + 2] == hex_digit(b % 16));
        assert(hex_val(hex_digit(b / 16)) == b / 16);
        assert(hex_val(hex_digit(b % 16)) == b % 16);
        assert(((b / 16) * 16 + b % 16) as u8 == b);
        assert(3 * k + 3 == 3 * (k + 1));
        assert(s.subrange(k, s.len() as int) =~= seq![b] + s.subrange(k + 1, s.len() as int));
    } else {
        assert(s.subrange(k, s.len() as int) =~= Seq::<u8>::empty());
    }
}

fn is_hex_byte(b: u8) -> (r: bool)
    ensures
        r == is_hex(b),
{
    (48 <= b && b <= 57) || (97 <= b && b <= 102) || (65 <= b && b <= 70)
}

fn hex_digit_value(dig: u8) -> (r: u8)
    requires
        is_hex(dig),
    ensures
        r == hex_val(dig),
        r < 16,
{
    if 48 <= dig && dig <= 57 {
        dig - 48
    } else if 97 <= dig && dig <= 102 {
        dig - 87
    } else {
        dig - 55
    }
}

/// The byte that two hex digits name.
pub fn get_byte_from_hex(tens_dig: u8, ones_dig: u8) -> (r: u8)
    requires
        is_hex(tens_dig),
        is_hex(ones_dig),
    ensures
        r == (hex_val(tens_dig) * 16 + hex_val(ones_dig)) as u8,
{
    let hi = hex_digit_value(tens_dig);
    let lo = hex_digit_value(ones_dig);
    hi * 16 + lo
}

/// Decodes the `%HH` escapes of a request path.
pub fn undo_percent_encoding(path: &[u8]) -> (r: Vec<u8>)
    ensures
        r@ == pct_decode(path@),
{
    let mut out: Vec<u8> = Vec::new();
    let mut i: usize = 0;
    let n = path.len();
    while i < n
        invariant
            n == path@.len(),
            i <= n,
            out@ + pct_decode_from(path@, i as int) == pct_decode(path@),
        decreases n - i,
    {
        if n - i > 2 && path[i] == 37 && is_hex_byte(path[i + 1]) && is_hex_byte(path[i + 2]) {
            let b = get_byte_from_hex(path[i + 1], path[i + 2]);
            proof {
                assert(out@.push(b) + pct_decode_from(path@, i + 3) =~= out@ + pct_decode_from(
                    path@,
                    i as int,
                ));
            }
            out.push(b);
            i = i + 3;
        } else {
            proof {
                assert(out@.push(path@[i as int]) + pct_decode_from(path@, i + 1) =~= out@
                    + pct_decode_from(path@, i as int));
            }
            out.push(path[i]);
            i = i + 1;
        }
    }
    proof {
        assert(out@ + pct_decode_from(path@, i as int) =~= out@);
    }
    out
}

// ---------------------------------------------------------------------------
// The request head

pub struct HttpHeader {
    pub key: Vec<u8>,
    pub value: Vec<u8>,
}

/// What a parsed request head holds.
pub struct RequestView {
    pub method: Option<HttpMethod>,
    pub version: HttpVersion,
    pub path: Seq<u8>,
    pub headers: Seq<(Seq<u8>, Seq<u8>)>,
}

pub struct HttpRequest {
    /// The percent-decoded path.
    pub path: Vec<u8>,
    /// `None` for a method this server does not implement.
    pub method: Option<HttpMethod>,
    pub version: HttpVersion,
    pub headers: Vec<HttpHeader>,
}

pub open spec fn headers_view(hs: Seq<HttpHeader>) -> Seq<(Seq<u8>, Seq<u8>)> {
    Seq::new(hs.len(), |i: int| (hs[i].key@, hs[i].value@))
}

impl HttpRequest {
    pub open spec fn view(&self) -> RequestView {
        RequestView {
            method: self.method,
            version: self.version,
            path: self.path@,
            headers: headers_view(self.headers@),
        }
    }
}

pub open spec fn crlf() -> Seq<u8> {
    seq![13u8, 10u8]
}

pub open spec fn parse_version(t: Seq<u8>) -> Option<HttpVersion> {
    if t == lit("HTTP/1.0"@) {
        Some(HttpVersion::Http1_0)
    } else if t == lit("HTTP/1.1"@) {
        Some(HttpVersion::Http1_1)
    } else {
        None
    }
}

pub open spec fn parse_method(t: Seq<u8>) -> Option<HttpMethod> {
    if t == lit("GET"@) {
        Some(HttpMethod::GET)
    } else if t == lit("HEAD"@) {
        Some(HttpMethod::HEAD)
    } else if t == lit("POST"@) {
        Some(HttpMethod::POST)
    } else {
        None
    }
}

/// A header line: split at its first `:`, the key trimmed and lower-cased,
/// the value trimmed. Empty lines and lines without `:` give nothing.
pub open spec fn parse_header_line(line: Seq<u8>) -> Option<(Seq<u8>, Seq<u8>)> {
    let c = find_byte(line, 58u8);
    if line.len() == 0 || c < 0 {
        None
    } else {
        Some(
            (
                lower(trim(line.subrange(0, c))),
                trim(line.subrange(c + 1, line.len() as int)),
            ),
        )
    }
}

/// The headers of a list of header lines, in order.
pub open spec fn headers_of(lines: Seq<Seq<u8>>) -> Seq<(Seq<u8>, Seq<u8>)>
    decreases lines.len(),
{
    if lines.len() == 0 {
        seq![]
    } else {
        headers_of(lines.drop_last()) + match parse_header_line(lines.last()) {
            Some(h) => seq![h],
            None => seq![],
        }
    }
}

/// The request that a head (all bytes up to and including the blank line)
/// denotes, or the status that rejects it.
pub open spec fn parse_request(s: Seq<u8>) -> Result<RequestView, HttpStatus> {
    let lines = split(s, crlf());
    let first = split(lines[0], seq![32u8]);
    if !vstd::utf8::valid_utf8(s) {
        Err(HttpStatus::BadRequest)
    } else if first.len() != 3 {
        Err(HttpStatus::BadRequest)
    } else if parse_version(first[2]) is None {
        Err(HttpStatus::HttpVersionNotSupported)
    } else if lines.last().len() != 0 {
        Err(HttpStatus::RequestHeadersTooLarge)
    } else {
        Ok(
            RequestView {
                method: parse_method(first[0]),
                version: parse_version(first[2])->Some_0,
                path: pct_decode(first[1]),
                headers: headers_of(lines.subrange(1, lines.len() as int)),
            },
        )
    }
}

/// Relies on `std::str::from_utf8`, which succeeds exactly on valid UTF-8.
#[verifier::external_body]
fn is_utf8(b: &[u8]) -> (r: bool)
    ensures
        r == vstd::utf8::valid_utf8(b@),
{
    std::str::from_utf8(b).is_ok()
}

fn eq_lit(s: &[u8], from: usize, to: usize, l: &str) -> (r: bool)
    requires
        from <= to <= s@.len(),
        vstd::string::is_ascii(l),
    ensures
        r == (s@.subrange(from as int, to as int) == lit(l@)),
{
    let v = lit_vec(l);
    let piece = vstd::slice::slice_subrange(s, from, to);
    bytes_eq(piece, v.as_slice())
}

impl HttpRequest {
    /// Parses a request head.
    pub fn new(request: &[u8]) -> (r: Result<HttpRequest, HttpStatus>)
        ensures
            match r {
                Ok(req) => parse_request(request@) == Ok::<RequestView, HttpStatus>(req@),
                Err(e) => parse_request(request@) == Err::<RequestView, HttpStatus>(e),
            },
    {
        let ghost s = request@;
        let ok = is_utf8(request);
        let crlf_v: Vec<u8> = vec![13u8, 10u8];
        let sp: Vec<u8> = vec![32u8];
        proof {
            assert(crlf_v@ =~= crlf());
            assert(sp@ =~= seq![32u8]);
            assert(s.subrange(0, s.len() as int) =~= s);
        }
        let lines = split_bounds(request, 0, request.len(), crlf_v.as_slice());
        let ghost ls = split(s, crlf());
        assert(pieces(s, lines@)[0] == ls[0]);
        let (l0, l1) = lines[0];
        let first = split_bounds(request, l0, l1, sp.as_slice());
        let ghost fs = split(ls[0], seq![32u8]);
        if !ok {
            return Err(HttpStatus::BadRequest);
        }
        if first.len() != 3 {
            return Err(HttpStatus::BadRequest);
        }
        assert(pieces(s, first@)[0] == fs[0]);
        assert(pieces(s, first@)[1] == fs[1]);
        assert(pieces(s, first@)[2] == fs[2]);
        let (v0, v1) = first[2];
        let version = if {
            proof {
                reveal_strlit("HTTP/1.0");
            }
            eq_lit(request, v0, v1, "HTTP/1.0")
        } {
            HttpVersion::Http1_0
        } else if {
            proof {
                reveal_strlit("HTTP/1.1");
            }
            eq_lit(request, v0, v1, "HTTP/1.1")
        } {
            HttpVersion::Http1_1
        } else {
            return Err(HttpStatus::HttpVersionNotSupported);
        };
        let (z0, z1) = lines[lines.len() - 1];
        assert(pieces(s, lines@)[lines@.len() - 1] == ls.last());
        if z1 != z0 {
            return Err(HttpStatus::RequestHeadersTooLarge);
        }
        let (m0, m1) = first[0];
        let method = if {
            proof {
                reveal_strlit("GET");
            }
            eq_lit(request, m0, m1, "GET")
        } {
            Some(HttpMethod::GET)
        } else if {
            proof {
                reveal_strlit("HEAD");
            }
            eq_lit(request, m0, m1, "HEAD")
        } {
            Some(HttpMethod::HEAD)
        } else if {
            proof {
                reveal_strlit("POST");
            }
            eq_lit(request, m0, m1, "POST")
        } {
            Some(HttpMethod::POST)
        } else {
            None
        };
        let mut headers: Vec<HttpHeader> = Vec::new();
        let mut k: usize = 1;
        while k < lines.len()
            invariant
                1 <= k <= lines@.len(),
                bounds_within(lines@, 0, s.len() as int),
                pieces(s, lines@) == ls,
                s == request@,
                headers_view(headers@) == headers_of(ls.subrange(1, k as int)),
            decreases lines@.len() - k,
        {
            let (a, b) = lines[k];
            let ghost line = s.subrange(a as int, b as int);
            assert(ls[k as int] == line);
            proof {
                assert(ls.subrange(1, k + 1).drop_last() =~= ls.subrange(1, k as int));
                assert(ls.subrange(1, k + 1).last() == line);
            }
            if a < b {
                match index_of(request, 58u8, a, b) {
                    Some(c) => {
                        let raw_key = trimmed(request, a, c);
                        let key = to_lower(raw_key.as_slice());
                        let value = trimmed(request, c + 1, b);
                        proof {
                            assert(line.subrange(0, c - a) =~= s.subrange(a as int, c as int));
                            assert(line.subrange(c - a + 1, line.len() as int) =~= s.subrange(
                                c + 1,
                                b as int,
                            ));
                        }
                        let ghost before = headers@;
                        headers.push(HttpHeader { key, value });
                        proof {
                            assert(headers_view(headers@) =~= headers_view(before).push(
                                (lower(trim(line.subrange(0, c - a))), trim(line.subrange(c - a + 1, line.len() as int))),
                            ));
                        }
                    },
                    None => {
                    },
                }
            }
            k = k + 1;
            proof {
                assert(headers_view(headers@) =~= headers_of(ls.subrange(1, k as int)));
            }
        }
        let (p0, p1) = first[1];
        let path = undo_percent_encoding(vstd::slice::slice_subrange(request, p0, p1));
        Ok(HttpRequest { path, method, version, headers })
    }

    /// The value of the first header named `key`, compared without regard to
    /// ASCII case.
    pub fn get_header(&self, key: &[u8]) -> (r: Option<&Vec<u8>>)
        ensures
            match r {
                Some(v) => header_lookup(self@.headers, lower(key@)) == Some(v@),
                None => header_lookup(self@.headers, lower(key@)) is None,
            },
    {
        let k = to_lower(key);
        let ghost hs = self@.headers;
        proof {
            assert(hs.subrange(0, hs.len() as int) =~= hs);
        }
        let mut i: usize = 0;
        while i < self.headers.len()
            invariant
                i <= self.headers@.len(),
                hs == headers_view(self.headers@),
                k@ == lower(key@),
                header_lookup(hs, k@) == header_lookup(hs.subrange(i as int, hs.len() as int), k@),
            decreases self.headers@.len() - i,
        {
            proof {
                assert(hs.subrange(i as int, hs.len() as int).drop_first() =~= hs.subrange(
                    i + 1,
                    hs.len() as int,
                ));
            }
            if bytes_eq(self.headers[i].key.as_slice(), k.as_slice()) {
                assert(hs.subrange(i as int, hs.len() as int)[0] == hs[i as int]);
                assert(hs[i as int] == (self.headers@[i as int].key@, self.headers@[i as int].value@));
                assert(hs[i as int].0 == k@);
                assert(header_lookup(hs.subrange(i as int, hs.len() as int), k@) == Some(hs[i as int].1));
                assert(k@ == lower(key@));
                return Some(&self.headers[i].value);
            }
            i = i + 1;
        }
        None
    }
}

/// The value of the first header whose key is `key`.
pub open spec fn header_lookup(hs: Seq<(Seq<u8>, Seq<u8>)>, key: Seq<u8>) -> Option<Seq<u8>>
    decreases hs.len(),
{
    if hs.len() == 0 {
        None
    } else if hs[0].0 == key {
        Some(hs[0].1)
    } else {
        header_lookup(hs.drop_first(), key)
    }
}

/// Parses the head of a request held in the connection's buffer.
pub fn decode_request(req_body: &[u8]) -> (r: Result<HttpRequest, HttpStatus>)
    ensures
        match r {
            Ok(req) => parse_request(req_body@) == Ok::<RequestView, HttpStatus>(req@),
            Err(e) => parse_request(req_body@) == Err::<RequestView, HttpStatus>(e),
        },
{
    HttpRequest::new(req_body)
}

// ---------------------------------------------------------------------------
// The multipart boundary

/// The value of a `boundary=` parameter. A quoted value loses its quotes;
/// an opening quote without a closing one, or nothing between the quotes,
/// is malformed.
pub open spec fn boundary_param(seg: Seq<u8>) -> Option<Seq<u8>> {
    let e = find_byte(seg, 61u8);
    if e < 0 {
        None
    } else {
        let inner = seg.subrange(e, seg.len() as int);
        if inner.len() >= 2 && inner[1] == 34u8 {
            if inner.len() >= 4 && inner.last() == 34u8 {
                Some(inner.subrange(2, inner.len() - 1))
            } else {
                None
            }
        } else {
            Some(inner.subrange(1, inner.len() as int))
        }
    }
}

/// The boundary named by the first `;`-separated parameter that begins
/// with `boundary=`.
pub open spec fn boundary_in(segs: Seq<Seq<u8>>) -> Option<Seq<u8>>
    decreases segs.len(),
{
    if segs.len() == 0 {
        None
    } else if has_prefix(trim_start(segs[0]), lit("boundary="@)) {
        boundary_param(segs[0])
    } else {
        boundary_in(segs.drop_first())
    }
}

/// The multipart boundary that a request's `Content-Type` names.
pub open spec fn post_boundary(headers: Seq<(Seq<u8>, Seq<u8>)>) -> Option<Seq<u8>> {
    match header_lookup(headers, lit("content-type"@)) {
        None => None,
        Some(ct) => boundary_in(split(ct, seq![59u8])),
    }
}

/// The boundary parameter of the request's `Content-Type`, if it has one.
pub fn get_post_boundary(req: &HttpRequest) -> (r: Option<Vec<u8>>)
    ensures
        match r {
            Some(b) => post_boundary(req@.headers) == Some(b@),
            None => post_boundary(req@.headers) is None,
        },
{
    proof {
        reveal_strlit("content-type");
        reveal_strlit("boundary=");
    }
    let name = lit_vec("content-type");
    proof {
        assert(lower(name@) =~= name@);
    }
    let ct = match req.get_header(name.as_slice()) {
        Some(ct) => ct,
        None => {
            return None;
        },
    };
    let key = lit_vec("boundary=");
    let s = ct.as_slice();
    let semi: Vec<u8> = vec![59u8];
    proof {
        assert(semi@ =~= seq![59u8]);
        assert(s@.subrange(0, s@.len() as int) =~= s@);
    }
    let segs = split_bounds(s, 0, s.len(), semi.as_slice());
    let ghost all = split(s@, seq![59u8]);
    proof {
        assert(all.subrange(0, all.len() as int) =~= all);
        assert(name@ == lit("content-type"@));
        assert(post_boundary(req@.headers) == boundary_in(all));
    }
    let mut k: usize = 0;
    while k < segs.len()
        invariant
            k <= segs@.len(),
            bounds_within(segs@, 0, s@.len() as int),
            pieces(s@, segs@) == all,
            key@ == lit("boundary="@),
            post_boundary(req@.headers) == boundary_in(all),
            boundary_in(all) == boundary_in(all.subrange(k as int, all.len() as int)),
        decreases segs@.len() - k,
    {
        let (a, b) = segs[k];
        let ghost seg = s@.subrange(a as int, b as int);
        assert(all[k as int] == seg);
        proof {
            assert(all.subrange(k as int, all.len() as int).drop_first() =~= all.subrange(
                k + 1,
                all.len() as int,
            ));
            assert(all.subrange(k as int, all.len() as int)[0] == seg);
        }
        let t = skip_ws(s, a, b);
        if starts_with(vstd::slice::slice_subrange(s, t, b), key.as_slice()) {
            proof {
                assert(trim_start(seg) == s@.subrange(t as int, b as int));
                assert(boundary_in(all) == boundary_param(seg));
            }
            return match index_of(s, 61u8, a, b) {
                Some(e) => {
                    proof {
                        assert(seg.subrange(e - a, seg.len() as int) =~= s@.subrange(e as int, b as int));
                        assert(find_byte(seg, 61u8) == e - a);
                    }
                    if b - e >= 2 && s[e + 1] == 34u8 {
                        if b - e >= 4 && s[b - 1] == 34u8 {
                            proof {
                                assert(seg.subrange(e - a, seg.len() as int).subrange(2, b - e - 1) =~= s@.subrange(e + 2, b - 1));
                                assert(boundary_param(seg) == Some(s@.subrange(e + 2, b - 1)));
                            }
                            Some(copy_range(s, e + 2, b - 1))
                        } else {
                            None
                        }
                    } else {
                        proof {
                            assert(seg.subrange(e - a, seg.len() as int).subrange(1, b - e) =~= s@.subrange(e + 1, b as int));
                            assert(boundary_param(seg) == Some(s@.subrange(e + 1, b as int)));
                        }
                        Some(copy_range(s, e + 1, b))
                    }
                },
                None => None,
            };
        }
        k = k + 1;
    }
    None
}

// ---------------------------------------------------------------------------
// Splitting

/// Pieces of `s[start..]` separated by `sep`, scanning from `i`.
pub open spec fn split_scan(s: Seq<u8>, sep: Seq<u8>, start: int, i: int) -> Seq<Seq<u8>>
    decreases s.len() - i,
{
    if sep.len() == 0 || i < start || start < 0 || i + sep.len() > s.len() {
        seq![s.subrange(start, s.len() as int)]
    } else if s.subrange(i, i + sep.len()) == sep {
        seq![s.subrange(start, i)] + split_scan(s, sep, i + sep.len(), i + sep.len())
    } else {
        split_scan(s, sep, start, i + 1)
    }
}

/// `s` cut at every occurrence of `sep`, as `str::split` does.
pub open spec fn split(s: Seq<u8>, sep: Seq<u8>) -> Seq<Seq<u8>> {
    split_scan(s, sep, 0, 0)
}

/// The pieces of `s` that a list of bounds denotes.
pub open spec fn pieces(s: Seq<u8>, b: Seq<(usize, usize)>) -> Seq<Seq<u8>> {
    Seq::new(b.len(), |k: int| s.subrange(b[k].0 as int, b[k].1 as int))
}

/// Every bound lies within `[from, to]`.
pub open spec fn bounds_within(b: Seq<(usize, usize)>, from: int, to: int) -> bool {
    forall|k: int| 0 <= k < b.len() ==> from <= #[trigger] b[k].0 <= b[k].1 <= to
}

fn matches_here(s: &[u8], i: usize, sep: &[u8]) -> (r: bool)
    requires
        i <= s@.len(),
    ensures
        r == (i + sep@.len() <= s@.len() && s@.subrange(i as int, i + sep@.len()) == sep@),
{
    if sep.len() > s.len() - i {
        return false;
    }
    let mut k: usize = 0;
    while k < sep.len()
        invariant
            i + sep@.len() <= s@.len(),
            s@.len() <= usize::MAX,
            k <= sep@.len(),
            forall|m: int| 0 <= m < k ==> s@[i + m] == sep@[m],
        decreases sep@.len() - k,
    {
        if s[i + k] != sep[k] {
            proof {
                assert(s@.subrange(i as int, i + sep@.len())[k as int] != sep@[k as int]);
            }
            return false;
        }
        k = k + 1;
    }
    proof {
        assert(s@.subrange(i as int, i + sep@.len()) =~= sep@);
    }
    true
}

/// The bounds of the pieces of `s[from..to]` cut at `sep`.
pub fn split_bounds(s: &[u8], from: usize, to: usize, sep: &[u8]) -> (r: Vec<(usize, usize)>)
    requires
        from <= to <= s@.len(),
        sep@.len() > 0,
    ensures
        bounds_within(r@, from as int, to as int),
        pieces(s@, r@) == split(s@.subrange(from as int, to as int), sep@),
        r@.len() >= 1,
{
    let ghost t = s@.subrange(from as int, to as int);
    let mut r: Vec<(usize, usize)> = Vec::new();
    let mut start: usize = from;
    let mut i: usize = from;
    while i < to
        invariant
            from <= start <= i <= to <= s@.len(),
            sep@.len() > 0,
            t == s@.subrange(from as int, to as int),
            bounds_within(r@, from as int, to as int),
            pieces(s@, r@) + split_scan(t, sep@, start - from, i - from) == split(t, sep@),
        decreases to - i,
    {
        let sub = slice_to(s, to);
        proof {
            if i + sep@.len() <= to {
                assert(sub@.subrange(i as int, i + sep@.len()) =~= s@.subrange(
                    i as int,
                    i + sep@.len(),
                ));
            }
        }
        let ghost old_r = r@;
        if matches_here(sub, i, sep) {
            proof {
                assert(t.subrange(i - from, i - from + sep@.len()) =~= s@.subrange(
                    i as int,
                    i + sep@.len(),
                ));
                assert(t.subrange(start - from, i - from) =~= s@.subrange(start as int, i as int));
                assert(pieces(s@, r@.push((start, i))) =~= pieces(s@, r@).push(
                    s@.subrange(start as int, i as int),
                ));
            }
            r.push((start, i));
            proof {
                assert(r@[r@.len() - 1] == (start, i));
                assert forall|k: int| 0 <= k < r@.len() implies from <= #[trigger] r@[k].0
                    <= r@[k].1 <= to by {
                    if k < r@.len() - 1 {
                        assert(r@[k] == old_r[k]);
                    }
                }
            }
            i = i + sep.len();
            start = i;
        } else {
            proof {
                if i + sep@.len() <= to {
                    assert(t.subrange(i - from, i - from + sep@.len()) =~= s@.subrange(
                        i as int,
                        i + sep@.len(),
                    ));
                }
            }
            i = i + 1;
        }
    }
    proof {
        assert(t.subrange(start - from, t.len() as int) =~= s@.subrange(start as int, to as int));
        assert(pieces(s@, r@.push((start, to))) =~= pieces(s@, r@).push(
            s@.subrange(start as int, to as int),
        ));
    }
    let ghost old_r = r@;
    r.push((start, to));
    proof {
        assert(r@[r@.len() - 1] == (start, to));
        assert forall|k: int| 0 <= k < r@.len() implies from <= #[trigger] r@[k].0 <= r@[k].1
            <= to by {
            if k < r@.len() - 1 {
                assert(r@[k] == old_r[k]);
            }
        }
        assert(pieces(s@, r@) =~= split(t, sep@));
    }
    r
}

fn slice_to(s: &[u8], to: usize) -> (r: &[u8])
    requires
        to <= s@.len(),
    ensures
        r@ == s@.subrange(0, to as int),
{
    vstd::slice::slice_subrange(s, 0, to)
}

} // verus!
