//! A response: status line and headers, a body source, and the count of body
//! bytes still owed to the peer.
use vstd::prelude::*;
use crate::http_core::{HttpHeader, HttpStatus, HttpVersion, crlf, headers_view, status_code, status_text, status_to_code, status_to_message, version_text, version_to_str};
use crate::text::{dec, lit, push_bytes, push_dec, push_lit};

verus! {

/// The most body bytes handed to the socket in one step.
pub const BUFFER_SIZE: usize = 524288;

/// An in-memory body with a read position.
pub struct SeekableString {
    pub start: usize,
    pub data: Vec<u8>,
}

impl SeekableString {
    pub fn new(d: Vec<u8>) -> (r: SeekableString)
        ensures
            r.start == 0,
            r.data@ == d@,
    {
        SeekableString { start: 0, data: d }
    }

    /// Reads up to `max` bytes from the read position on.
    pub fn read(&mut self, max: usize) -> (r: Vec<u8>)
        ensures
            final(self).data@ == old(self).data@,
            old(self).start >= old(self).data@.len() ==> r@.len() == 0 && final(self).start
                == old(self).start,
            old(self).start < old(self).data@.len() ==> r@ == old(self).data@.subrange(
                old(self).start as int,
                old(self).start + min_int(max as int, old(self).data@.len() - old(self).start),
            ) && final(self).start == old(self).start + r@.len(),
    {
        if self.start >= self.data.len() {
            return Vec::new();
        }
        let avail = self.data.len() - self.start;
        let n = if max < avail {
            max
        } else {
            avail
        };
        let out = crate::text::copy_range(self.data.as_slice(), self.start, self.start + n);
        self.start = self.start + n;
        out
    }

    /// Moves the read position.
    pub fn seek(&mut self, pos: usize)
        ensures
            final(self).start == pos,
            final(self).data@ == old(self).data@,
    {
        self.start = pos;
    }
}

/// The bytes a read of up to `max` bytes from the read position gives.
pub open spec fn read_chunk(s: SeekableString, max: int) -> Seq<u8> {
    if s.start >= s.data@.len() {
        seq![]
    } else {
        s.data@.subrange(s.start as int, s.start + min_int(max, s.data@.len() - s.start))
    }
}

pub open spec fn min_int(a: int, b: int) -> int {
    if a < b {
        a
    } else {
        b
    }
}

/// Where a response body comes from. A file body is read by the caller,
/// which holds the open file.
pub enum ResponseDataType {
    String(SeekableString),
    File,
    Empty,
}

pub struct HttpResponse {
    pub status: HttpStatus,
    pub version: HttpVersion,
    pub headers: Vec<HttpHeader>,
    pub headers_written: bool,
    pub data: ResponseDataType,
    /// Body bytes promised by `Content-Length` and not yet sent.
    pub bytes_to_write: usize,
    /// Where in the body source the first byte to send lies.
    pub body_offset: usize,
}

/// One header line on the wire: `key: value` and CRLF.
pub open spec fn header_line(h: (Seq<u8>, Seq<u8>)) -> Seq<u8> {
    h.0 + lit(": "@) + h.1 + crlf()
}

pub open spec fn header_lines(hs: Seq<(Seq<u8>, Seq<u8>)>) -> Seq<u8>
    decreases hs.len(),
{
    if hs.len() == 0 {
        seq![]
    } else {
        header_lines(hs.drop_last()) + header_line(hs.last())
    }
}

/// The head of a response on the wire: `version SP code SP message CRLF`,
/// the header lines, and an empty line.
pub open spec fn head_text(v: HttpVersion, s: HttpStatus, hs: Seq<(Seq<u8>, Seq<u8>)>) -> Seq<u8> {
    lit(version_text(v)) + seq![32u8] + dec(status_code(s) as nat) + seq![32u8] + lit(
        status_text(s),
    ) + crlf() + header_lines(hs) + crlf()
}

impl HttpResponse {
    pub open spec fn headers_view(&self) -> Seq<(Seq<u8>, Seq<u8>)> {
        headers_view(self.headers@)
    }

    pub fn new(status: HttpStatus, version: &HttpVersion) -> (r: HttpResponse)
        ensures
            r.status == status,
            r.version == *version,
            r.headers@.len() == 0,
            !r.headers_written,
            r.data is Empty,
            r.bytes_to_write == 0,
            r.body_offset == 0,
    {
        HttpResponse {
            status,
            version: *version,
            headers: Vec::new(),
            headers_written: false,
            data: ResponseDataType::Empty,
            bytes_to_write: 0,
            body_offset: 0,
        }
    }

    pub fn add_body(&mut self, data: ResponseDataType)
        ensures
            final(self).data == data,
            final(self).status == old(self).status,
            final(self).version == old(self).version,
            final(self).headers@ == old(self).headers@,
            final(self).headers_written == old(self).headers_written,
            final(self).bytes_to_write == old(self).bytes_to_write,
            final(self).body_offset == old(self).body_offset,
    {
        self.data = data;
    }

    /// Drops the body; the headers, `Content-Length` included, stay.
    pub fn clear_body(&mut self)
        ensures
            final(self).data is Empty,
            final(self).status == old(self).status,
            final(self).version == old(self).version,
            final(self).headers@ == old(self).headers@,
            final(self).headers_written == old(self).headers_written,
            final(self).bytes_to_write == old(self).bytes_to_write,
            final(self).body_offset == old(self).body_offset,
    {
        self.data = ResponseDataType::Empty;
    }

    pub fn add_header(&mut self, key: Vec<u8>, value: Vec<u8>)
        ensures
            final(self).headers_view() == old(self).headers_view().push((key@, value@)),
            final(self).status == old(self).status,
            final(self).version == old(self).version,
            final(self).data == old(self).data,
            final(self).headers_written == old(self).headers_written,
            final(self).bytes_to_write == old(self).bytes_to_write,
            final(self).body_offset == old(self).body_offset,
    {
        let ghost before = self.headers@;
        self.headers.push(HttpHeader { key, value });
        proof {
            assert(headers_view(self.headers@) =~= headers_view(before).push((key@, value@)));
        }
    }

    /// Adds `Content-Length: size` and owes the peer `size` body bytes.
    pub fn set_content_length(&mut self, size: usize)
        ensures
            final(self).headers_view() == old(self).headers_view().push(
                (lit("Content-Length"@), dec(size as nat)),
            ),
            final(self).bytes_to_write == size,
            final(self).status == old(self).status,
            final(self).version == old(self).version,
            final(self).data == old(self).data,
            final(self).headers_written == old(self).headers_written,
            final(self).body_offset == old(self).body_offset,
    {
        let mut k: Vec<u8> = Vec::new();
        proof {
            reveal_strlit("Content-Length");
        }
        push_lit(&mut k, "Content-Length");
        let mut v: Vec<u8> = Vec::new();
        push_dec(&mut v, size);
        proof {
            assert(k@ =~= lit("Content-Length"@));
            assert(v@ =~= dec(size as nat));
        }
        self.add_header(k, v);
        self.bytes_to_write = size;
    }

    /// The status code as decimal digits.
    pub fn get_code(&self) -> (r: Vec<u8>)
        ensures
            r@ == dec(status_code(self.status) as nat),
    {
        let mut v: Vec<u8> = Vec::new();
        push_dec(&mut v, status_to_code(&self.status) as usize);
        proof {
            assert(v@ =~= dec(status_code(self.status) as nat));
        }
        v
    }

    /// Appends the head of the response to `stream`; the head is written
    /// once.
    pub fn write_headers_to_stream(&mut self, stream: &mut Vec<u8>)
        requires
            !old(self).headers_written,
        ensures
            final(self).headers_written,
            final(stream)@ == old(stream)@ + head_text(
                old(self).version,
                old(self).status,
                old(self).headers_view(),
            ),
            final(self).status == old(self).status,
            final(self).version == old(self).version,
            final(self).headers@ == old(self).headers@,
            final(self).data == old(self).data,
            final(self).bytes_to_write == old(self).bytes_to_write,
            final(self).body_offset == old(self).body_offset,
    {
        let ghost start = stream@;
        let v = version_to_str(&self.version);
        push_lit(stream, v);
        stream.push(32u8);
        push_dec(stream, status_to_code(&self.status) as usize);
        stream.push(32u8);
        push_lit(stream, status_to_message(&self.status));
        stream.push(13u8);
        stream.push(10u8);
        let ghost after_status = stream@;
        proof {
            reveal_strlit(": ");
            assert(self.headers_view().subrange(0, 0) =~= Seq::<(Seq<u8>, Seq<u8>)>::empty());
            assert(after_status == start + lit(version_text(self.version)) + seq![32u8] + dec(
                status_code(self.status) as nat,
            ) + seq![32u8] + lit(status_text(self.status)) + crlf());
        }
        let mut i: usize = 0;
        while i < self.headers.len()
            invariant
                i <= self.headers@.len(),
                stream@ == after_status + header_lines(self.headers_view().subrange(0, i as int)),
                vstd::string::is_ascii(": "),
                ": "@ == seq![':', ' '],
            decreases self.headers@.len() - i,
        {
            push_bytes(stream, self.headers[i].key.as_slice());
            push_lit(stream, ": ");
            push_bytes(stream, self.headers[i].value.as_slice());
            stream.push(13u8);
            stream.push(10u8);
            proof {
                let hv = self.headers_view();
                assert(hv.subrange(0, i + 1).drop_last() =~= hv.subrange(0, i as int));
                assert(hv.subrange(0, i + 1).last() == hv[i as int]);
                assert(lit(": "@) =~= seq![58u8, 32u8]);
            }
            i = i + 1;
        }
        stream.push(13u8);
        stream.push(10u8);
        proof {
            assert(self.headers_view().subrange(0, self.headers@.len() as int) =~= self.headers_view());
        }
        self.headers_written = true;
    }

    /// How many bytes the next step may read from the body source.
    pub fn chunk_size(&self) -> (r: usize)
        ensures
            r == min_int(self.bytes_to_write as int, BUFFER_SIZE as int),
    {
        if self.bytes_to_write < BUFFER_SIZE {
            self.bytes_to_write
        } else {
            BUFFER_SIZE
        }
    }

    /// Reads the next chunk of an in-memory body; empty for other sources.
    pub fn next_chunk(&mut self) -> (r: Vec<u8>)
        requires
            old(self).headers_written,
        ensures
            r@.len() <= min_int(old(self).bytes_to_write as int, BUFFER_SIZE as int),
            final(self).headers_written,
            final(self).bytes_to_write == old(self).bytes_to_write,
            final(self).status == old(self).status,
            final(self).headers@ == old(self).headers@,
            old(self).data is Empty ==> r@.len() == 0 && final(self).data is Empty,
            old(self).data is File ==> r@.len() == 0 && final(self).data is File,
            old(self).data matches ResponseDataType::String(s) ==> r@ == read_chunk(
                s,
                min_int(old(self).bytes_to_write as int, BUFFER_SIZE as int),
            ) && (final(self).data matches ResponseDataType::String(t) && t.data@ == s.data@
                && t.start == s.start + r@.len()),
    {
        let n = self.chunk_size();
        match &mut self.data {
            ResponseDataType::String(s) => s.read(n),
            _ => Vec::new(),
        }
    }

    /// Records that `written` of the `read` bytes taken from the body source
    /// reached the peer. The unsent tail of an in-memory body is put back;
    /// a file body is moved back by the caller.
    pub fn partial_write_to_stream(&mut self, read: usize, written: usize)
        requires
            old(self).headers_written,
            written <= read,
            written <= old(self).bytes_to_write,
        ensures
            final(self).bytes_to_write == old(self).bytes_to_write - written,
            final(self).headers_written,
            final(self).status == old(self).status,
            final(self).headers@ == old(self).headers@,
            old(self).data is Empty ==> final(self).data is Empty,
            old(self).data is File ==> final(self).data is File,
            old(self).data matches ResponseDataType::String(s) ==> (final(self).data matches ResponseDataType::String(t)
                && t.data@ == s.data@ && t.start == if read - written <= s.start {
                s.start - (read - written)
            } else {
                s.start as int
            }),
    {
        match &mut self.data {
            ResponseDataType::String(s) => {
                let back = read - written;
                if back <= s.start {
                    let p = s.start - back;
                    s.seek(p);
                }
            },
            _ => {},
        }
        self.bytes_to_write = self.bytes_to_write - written;
    }
}

} // verus!
