//! One client connection: its state machine, the request dispatch rules, and
//! the responses it builds. The caller owns the socket and the files; it
//! hands this module the bytes it read and the outcome of what it did, and
//! sends the bytes this module returns.
use vstd::prelude::*;
use vstd::slice::slice_subrange;
use crate::http_core::{HttpMethod, HttpRequest, HttpStatus, HttpVersion, RequestView, decode_request, get_post_boundary, header_lookup, parse_request, post_boundary};
use crate::matcher::{find_body_start, head_end, is_first_match, no_match};
use crate::post_buffer::{closing_at, meta_outcome, Pending, PostAction, PostBuffer, PostRequestState, MAX_BOUNDARY, POST_BUFFER_SIZE};
use crate::range::{content_range_text, content_range_value, decode_content_range, effective_range, range_spec, resolve_range};
use crate::rendering::{error_page, render_error};
use crate::response::{head_text, HttpResponse, ResponseDataType, SeekableString};
use crate::text::{bytes_eq, dec, ends_with, has_suffix, lit, lit_vec, lower, to_lower};

verus! {

/// The size of the buffer a request head must fit in.
pub const REQUEST_BUFFER_SIZE: usize = 4096;

#[derive(Clone, Copy, Debug, PartialEq, Eq, Structural)]
pub enum ConnectionState {
    ReadingRequest,
    ReadingPostBody,
    WritingResponse,
    Closing,
}

/// The server-wide switches that decide how requests are answered.
#[derive(Clone, Copy, Debug, PartialEq, Eq, Structural)]
pub struct ServerFlags {
    pub dir_listings: bool,
    pub disabled: bool,
    pub uploading: bool,
}

pub struct HttpConnection {
    pub state: ConnectionState,
    /// The bytes of the request read so far.
    pub buffer: Vec<u8>,
    /// Where the body starts, once the head is complete.
    pub body_start_location: usize,
    pub post_buffer: Option<PostBuffer>,
    pub response: Option<HttpResponse>,
    pub last_requested_method: Option<HttpMethod>,
    pub last_requested_uri: Option<Vec<u8>>,
    pub num_requests: usize,
    pub keep_alive: bool,
    /// The request being answered is a HEAD: responses carry no body.
    pub head_request: bool,
    pub bytes_requested: usize,
    pub bytes_sent: usize,
    pub bytes_read: usize,
}

/// `a + n`, held at the largest `usize`.
pub open spec fn credit(a: usize, n: usize) -> usize {
    if a + n <= usize::MAX {
        (a + n) as usize
    } else {
        usize::MAX
    }
}

fn add_held(a: usize, n: usize) -> (r: usize)
    ensures
        r == credit(a, n),
{
    if n <= usize::MAX - a {
        a + n
    } else {
        usize::MAX
    }
}

/// What became of the bytes of a request head.
pub enum ReadOutcome {
    /// The peer closed the connection.
    Closed,
    /// The head is not complete yet.
    Incomplete,
    /// The head is complete; call `dispatch`.
    HeadComplete,
    /// The head does not fit; a response was prepared. Send these bytes.
    TooLarge(Vec<u8>),
}

/// Where a parsed request goes next.
pub enum Dispatch {
    /// A response was prepared; send these bytes.
    Respond(Vec<u8>),
    /// Serve the request path; call `finish_get`.
    Get(HttpRequest),
    /// Receive an upload with this boundary into the request path; call
    /// `start_upload`.
    Post(HttpRequest, Vec<u8>),
}

/// What the body of a GET resolved to.
pub enum GetTarget {
    /// A directory, with its rendered listing.
    Listing(Vec<u8>),
    /// A regular file of this many bytes.
    File(usize),
}

/// Where an upload stands after a step.
pub enum PostStep {
    /// Read more of the body.
    Reading,
    /// Perform this action, report it, and step again.
    Act(PostAction),
    /// The upload ended; a response was prepared. Send these bytes.
    Respond(Vec<u8>),
}

/// A header as it is added to a response.
pub open spec fn hdr(k: Seq<char>, v: Seq<u8>) -> (Seq<u8>, Seq<u8>) {
    (lit(k), v)
}

pub open spec fn connection_value(keep_alive: bool) -> Seq<u8> {
    if keep_alive {
        lit("keep-alive"@)
    } else {
        lit("close"@)
    }
}

/// The headers of a one-off response whose body has `len` bytes.
pub open spec fn oneoff_headers(len: usize, keep_alive: bool) -> Seq<(Seq<u8>, Seq<u8>)> {
    seq![
        hdr("Server"@, lit("hypershare"@)),
        hdr("Content-Length"@, dec(len as nat)),
        hdr("Connection"@, connection_value(keep_alive)),
        hdr("Content-Type"@, lit("text/html"@)),
    ]
}

/// Whether the request asks to keep the connection open.
pub open spec fn wants_keep_alive(v: RequestView) -> bool {
    match header_lookup(v.headers, lit("connection"@)) {
        Some(c) => lower(c) == lit("keep-alive"@),
        None => false,
    }
}

/// The body length, start, range length and whether a range was asked
/// for, or the status that rejects the `Range` header.
pub open spec fn get_range(v: RequestView, full: usize) -> Result<(usize, usize, bool), HttpStatus> {
    match header_lookup(v.headers, lit("range"@)) {
        None => Ok((0usize, full, false)),
        Some(r) => match range_spec(r) {
            None => Err(HttpStatus::BadRequest),
            Some(cr) => Ok((effective_range(cr, full).0, effective_range(cr, full).1, true)),
        },
    }
}

pub open spec fn target_len(t: GetTarget) -> usize {
    match t {
        GetTarget::Listing(l) => l@.len() as usize,
        GetTarget::File(n) => n,
    }
}

/// A listing is HTML; so is a file whose requested path ends in `.html`.
pub open spec fn target_is_html(v: RequestView, t: GetTarget) -> bool {
    t is Listing || has_suffix(v.path, lit(".html"@))
}

/// The status and headers a GET or HEAD is answered with, and the number of
/// body bytes promised; or the status that rejects it.
pub open spec fn get_plan(v: RequestView, t: GetTarget, keep_alive: bool) -> Result<
    (HttpStatus, Seq<(Seq<u8>, Seq<u8>)>, usize),
    HttpStatus,
> {
    let full = target_len(t);
    match get_range(v, full) {
        Err(e) => Err(e),
        Ok((s, len, used)) => {
            let base = seq![
                hdr("Server"@, lit("hypershare"@)),
                hdr("Accept-Ranges"@, lit("bytes"@)),
                hdr("Content-Length"@, dec(len as nat)),
            ];
            let with_range = if used {
                base.push(hdr("Content-Range"@, content_range_text(s, len, full)))
            } else {
                base
            };
            let with_type = if target_is_html(v, t) {
                with_range.push(hdr("Content-Type"@, lit("text/html"@)))
            } else {
                with_range
            };
            Ok(
                (
                    if used {
                        HttpStatus::PartialContent
                    } else {
                        HttpStatus::OK
                    },
                    with_type.push(hdr("Connection"@, connection_value(keep_alive))),
                    len,
                ),
            )
        },
    }
}

/// A HEAD and a GET of the same resource get the same status, the same
/// headers and the same `Content-Length`, or are rejected with the same
/// status; the HEAD response, a rejection included, carries no body (see
/// `finish_get` and `create_oneoff_response`).
pub proof fn lemma_head_matches_get(get: RequestView, head: RequestView, t: GetTarget, keep_alive: bool)
    requires
        get.method == Some(HttpMethod::GET),
        head.method == Some(HttpMethod::HEAD),
        get.path == head.path,
        get.headers == head.headers,
        get.version == head.version,
    ensures
        get_plan(get, t, keep_alive) == get_plan(head, t, keep_alive),
{
}

fn header_pair(k: &str, v: Vec<u8>) -> (r: (Vec<u8>, Vec<u8>))
    requires
        vstd::string::is_ascii(k),
    ensures
        r.0@ == lit(k@),
        r.1@ == v@,
{
    (lit_vec(k), v)
}

fn add_lit_header(resp: &mut HttpResponse, k: &str, v: &str)
    requires
        vstd::string::is_ascii(k),
        vstd::string::is_ascii(v),
    ensures
        final(resp).headers_view() == old(resp).headers_view().push((lit(k@), lit(v@))),
        final(resp).status == old(resp).status,
        final(resp).version == old(resp).version,
        final(resp).data == old(resp).data,
        final(resp).headers_written == old(resp).headers_written,
        final(resp).bytes_to_write == old(resp).bytes_to_write,
        final(resp).body_offset == old(resp).body_offset,
{
    resp.add_header(lit_vec(k), lit_vec(v));
}

fn add_connection_header(resp: &mut HttpResponse, keep_alive: bool)
    ensures
        final(resp).headers_view() == old(resp).headers_view().push(
            hdr("Connection"@, connection_value(keep_alive)),
        ),
        final(resp).status == old(resp).status,
        final(resp).version == old(resp).version,
        final(resp).data == old(resp).data,
        final(resp).headers_written == old(resp).headers_written,
        final(resp).bytes_to_write == old(resp).bytes_to_write,
        final(resp).body_offset == old(resp).body_offset,
{
    proof {
        reveal_strlit("Connection");
        reveal_strlit("keep-alive");
        reveal_strlit("close");
    }
    if keep_alive {
        add_lit_header(resp, "Connection", "keep-alive");
    } else {
        add_lit_header(resp, "Connection", "close");
    }
}

/// Builds the response to a GET or HEAD whose path resolved to `target`,
/// and the number of body bytes it promises.
pub fn build_get_response(req: &HttpRequest, target: GetTarget, keep_alive: bool) -> (r: Result<
    (HttpResponse, usize),
    HttpStatus,
>)
    ensures
        match r {
            Ok((resp, n)) => get_plan(req@, target, keep_alive) == Ok::<
                (HttpStatus, Seq<(Seq<u8>, Seq<u8>)>, usize),
                HttpStatus,
            >((resp.status, resp.headers_view(), n)) && resp.version == req.version
                && !resp.headers_written && resp.bytes_to_write == n && n <= target_len(target)
                && resp.body_offset + n <= target_len(target)
                && resp.body_offset == get_range(req@, target_len(target))->Ok_0.0
                && match target {
                    GetTarget::Listing(l) => (resp.data matches ResponseDataType::String(s) && s.data@ == l@ && s.start == resp.body_offset),
                    GetTarget::File(_) => resp.data is File,
                },
            Err(e) => get_plan(req@, target, keep_alive) == Err::<
                (HttpStatus, Seq<(Seq<u8>, Seq<u8>)>, usize),
                HttpStatus,
            >(e),
        },
{
    let ghost tv = target;
    proof {
        reveal_strlit("range");
        reveal_strlit(".html");
    }
    let full = match &target {
        GetTarget::Listing(l) => l.len(),
        GetTarget::File(n) => *n,
    };
    let html_suffix = lit_vec(".html");
    let is_html = match &target {
        GetTarget::Listing(_) => true,
        GetTarget::File(_) => ends_with(req.path.as_slice(), html_suffix.as_slice()),
    };
    let range_name = lit_vec("range");
    proof {
        assert(lower(range_name@) =~= range_name@);
    }
    let (start, len, used) = match req.get_header(range_name.as_slice()) {
        None => (0usize, full, false),
        Some(v) => match decode_content_range(v.as_slice()) {
            None => {
                return Err(HttpStatus::BadRequest);
            },
            Some(cr) => {
                let (s, l) = resolve_range(&cr, full);
                (s, l, true)
            },
        },
    };
    let mut resp = HttpResponse::new(
        if used {
            HttpStatus::PartialContent
        } else {
            HttpStatus::OK
        },
        &req.version,
    );
    proof {
        reveal_strlit("Server");
        reveal_strlit("hypershare");
        reveal_strlit("Accept-Ranges");
        reveal_strlit("bytes");
        reveal_strlit("Content-Range");
        reveal_strlit("Content-Type");
        reveal_strlit("text/html");
    }
    add_lit_header(&mut resp, "Server", "hypershare");
    add_lit_header(&mut resp, "Accept-Ranges", "bytes");
    resp.set_content_length(len);
    if used {
        let (k, v) = header_pair("Content-Range", content_range_value(start, len, full));
        resp.add_header(k, v);
    }
    if is_html {
        add_lit_header(&mut resp, "Content-Type", "text/html");
    }
    add_connection_header(&mut resp, keep_alive);
    let data = match target {
        GetTarget::Listing(l) => {
            let mut s = SeekableString::new(l);
            s.seek(start);
            ResponseDataType::String(s)
        },
        GetTarget::File(_) => ResponseDataType::File,
    };
    resp.add_body(data);
    resp.body_offset = start;
    proof {
        let plan = get_plan(req@, tv, keep_alive);
        assert(plan is Ok);
        assert(resp.headers_view() =~= plan->Ok_0.1);
    }
    Ok((resp, len))
}

impl HttpConnection {
    /// The connection's invariant: the bytes sent never exceed the bytes
    /// promised, a connection writing a response has one whose head was
    /// written, and one receiving an upload has its parser.
    pub open spec fn wf(&self) -> bool {
        &&& self.buffer@.len() <= REQUEST_BUFFER_SIZE
        &&& self.body_start_location <= self.buffer@.len()
        &&& self.bytes_sent <= self.bytes_requested
        &&& (self.response matches Some(r) ==> self.bytes_sent + r.bytes_to_write <= self.bytes_requested
            || self.bytes_requested == usize::MAX)
        &&& (self.state == ConnectionState::WritingResponse ==> (self.response matches Some(r)
            && r.headers_written))
        &&& (self.state == ConnectionState::ReadingPostBody ==> self.post_buffer is Some)
        &&& (self.post_buffer matches Some(pb) ==> pb.wf())
    }

    /// What an upload step hands back: a file to open or bytes to write,
    /// with the parser waiting for the report; a wait for data the parser
    /// needs; or a prepared response whose head is returned. `Created`
    /// comes only once the closing boundary has arrived with no error
    /// queued; a failed upload is answered with the queued error's status
    /// and closes the connection.
    pub open spec fn upload_step(&self, r: PostStep, keep_alive: bool) -> bool {
        let pb = self.post_buffer->Some_0;
        &&& self.post_buffer is Some
        &&& (r matches PostStep::Act(a) ==> (a is Open || a is Write) && self.state
            == ConnectionState::ReadingPostBody)
        &&& (r matches PostStep::Act(PostAction::Write(from, to)) ==> from == pb.parse_idx && from < to
            && to <= pb.fill_location && (pb.pending matches Pending::Writing(t, _) && t == to))
        &&& (r matches PostStep::Act(PostAction::Open(n)) ==> pb.pending is Opening && pb.opening@.1
            == n@)
        &&& (r is Reading ==> self.state == ConnectionState::ReadingPostBody && pb.pending
            == Pending::Nothing && pb.needs_data())
        &&& (r matches PostStep::Respond(h) ==> self.state == ConnectionState::WritingResponse && h@
            == self.sent_head() && ((self.response->Some_0.status == HttpStatus::Created
            && self.keep_alive == keep_alive && pb.state != PostRequestState::DiscardingData
            && exists|i: int| crate::post_buffer::closing_at(pb.window(), pb.post_delimeter@, i))
            || (self.response->Some_0.status == pb.queued_error.code && pb.state
            == PostRequestState::DiscardingData && !self.keep_alive)))
    }

    /// The progress an upload step makes from a parser in state `st` whose
    /// window is `w`, boundary `d`, and size limit not passed (`within`):
    /// complete part headers give the file to open, or reject the part;
    /// incomplete ones wait for data; a closing boundary ends the upload
    /// with `Created`, or, while discarding, with the queued error.
    pub open spec fn upload_progress(
        &self,
        st: PostRequestState,
        w: Seq<u8>,
        d: Seq<u8>,
        within: bool,
        r: PostStep,
    ) -> bool {
        &&& (st == PostRequestState::AwaitingMeta && within ==> match meta_outcome(w) {
            None => r is Reading,
            Some(Some(n)) => (r matches PostStep::Act(PostAction::Open(m)) && m@ == n),
            Some(None) => self.post_buffer->Some_0.state == PostRequestState::DiscardingData,
        })
        &&& (st == PostRequestState::AwaitingFirstBody && within && (exists|i: int| closing_at(w, d, i))
            ==> r is Respond && self.response->Some_0.status == HttpStatus::Created)
        &&& (st == PostRequestState::DiscardingData && (exists|i: int| closing_at(w, d, i)) ==> r is Respond
            && self.post_buffer->Some_0.state == PostRequestState::DiscardingData)
        &&& (st != PostRequestState::DiscardingData && !within ==> self.post_buffer->Some_0.state
            == PostRequestState::DiscardingData)
    }

    /// The head of the current response, as it went on the wire.
    pub open spec fn sent_head(&self) -> Seq<u8> {
        let r = self.response->Some_0;
        head_text(r.version, r.status, r.headers_view())
    }

    /// The counters that outlive a request.
    pub open spec fn counters(&self) -> (usize, usize, usize, usize) {
        (self.bytes_requested, self.bytes_sent, self.bytes_read, self.num_requests)
    }

    pub fn new() -> (r: HttpConnection)
        ensures
            r.wf(),
            r.state == ConnectionState::ReadingRequest,
            r.buffer@.len() == 0,
            r.counters() == (0usize, 0usize, 0usize, 0usize),
            r.keep_alive,
            r.response is None,
            r.post_buffer is None,
    {
        HttpConnection {
            state: ConnectionState::ReadingRequest,
            buffer: Vec::new(),
            body_start_location: 0,
            post_buffer: None,
            response: None,
            last_requested_method: None,
            last_requested_uri: None,
            num_requests: 0,
            keep_alive: true,
            head_request: false,
            bytes_requested: 0,
            bytes_sent: 0,
            bytes_read: 0,
        }
    }

    /// Forgets the finished request; the counters stay.
    pub fn reset(&mut self)
        ensures
            final(self).buffer@.len() == 0,
            final(self).body_start_location == 0,
            final(self).response is None,
            final(self).post_buffer is None,
            final(self).counters() == old(self).counters(),
            final(self).state == old(self).state,
            final(self).keep_alive == old(self).keep_alive,
            final(self).last_requested_uri == old(self).last_requested_uri,
            final(self).last_requested_method == old(self).last_requested_method,
    {
        self.buffer = Vec::new();
        self.body_start_location = 0;
        self.response = None;
        self.post_buffer = None;
    }

    /// Room left in the request buffer.
    pub fn request_room(&self) -> (r: usize)
        requires
            self.wf(),
        ensures
            r == REQUEST_BUFFER_SIZE - self.buffer@.len(),
    {
        REQUEST_BUFFER_SIZE - self.buffer.len()
    }

    /// Prepares a response with a rendered page for `status`, and appends
    /// its head to `out`. Its length is added to the bytes promised; the
    /// answer to a HEAD request keeps the headers and sends no page.
    pub fn create_oneoff_response(&mut self, status: HttpStatus, msg: Option<Vec<u8>>, out: &mut Vec<u8>)
        requires
            old(self).wf(),
        ensures
            final(self).wf(),
            final(self).state == ConnectionState::WritingResponse,
            final(self).response matches Some(resp) && (resp.status == status
                && resp.version == HttpVersion::Http1_1 && resp.headers_view() == oneoff_headers(
                resp.bytes_to_write,
                old(self).keep_alive,
            ) && resp.headers_written && resp.bytes_to_write == error_page(
                status,
                match msg {
                    Some(m) => Some(m@),
                    None => None,
                },
            ).len() && (old(self).head_request ==> resp.data is Empty) && (!old(self).head_request
                ==> (resp.data matches ResponseDataType::String(s) && s.data@ == error_page(
                status,
                match msg {
                    Some(m) => Some(m@),
                    None => None,
                },
            ) && s.start == 0))),
            final(out)@ == old(out)@ + final(self).sent_head(),
            final(self).head_request == old(self).head_request,
            final(self).bytes_requested == credit(
                old(self).bytes_requested,
                final(self).response->Some_0.bytes_to_write,
            ),
            final(self).bytes_sent == old(self).bytes_sent,
            final(self).bytes_read == old(self).bytes_read,
            final(self).num_requests == old(self).num_requests,
            final(self).keep_alive == old(self).keep_alive,
            final(self).buffer == old(self).buffer,
            final(self).body_start_location == old(self).body_start_location,
            final(self).post_buffer == old(self).post_buffer,
            final(self).last_requested_uri == old(self).last_requested_uri,
            final(self).last_requested_method == old(self).last_requested_method,
    {
        let body = render_error(&status, msg);
        let mut resp = HttpResponse::new(status, &HttpVersion::Http1_1);
        proof {
            reveal_strlit("Server");
            reveal_strlit("hypershare");
            reveal_strlit("Content-Type");
            reveal_strlit("text/html");
        }
        add_lit_header(&mut resp, "Server", "hypershare");
        resp.set_content_length(body.len());
        add_connection_header(&mut resp, self.keep_alive);
        add_lit_header(&mut resp, "Content-Type", "text/html");
        self.bytes_requested = add_held(self.bytes_requested, body.len());
        resp.write_headers_to_stream(out);
        if !self.head_request {
            resp.add_body(ResponseDataType::String(SeekableString::new(body)));
        }
        proof {
            assert(resp.headers_view() =~= oneoff_headers(resp.bytes_to_write, self.keep_alive));
        }
        self.response = Some(resp);
        self.state = ConnectionState::WritingResponse;
    }

    /// Takes bytes read from the peer while reading a request head.
    pub fn read_partial_request(&mut self, data: &[u8]) -> (r: ReadOutcome)
        requires
            old(self).wf(),
            old(self).state == ConnectionState::ReadingRequest,
            data@.len() <= REQUEST_BUFFER_SIZE - old(self).buffer@.len(),
        ensures
            final(self).wf(),
            data@.len() == 0 ==> r is Closed && final(self).state == ConnectionState::Closing,
            data@.len() > 0 ==> final(self).buffer@ == old(self).buffer@ + data@ && !(r is Closed),
            r is HeadComplete ==> final(self).state == ConnectionState::ReadingRequest
                && 4 <= final(self).body_start_location && is_first_match(
                final(self).buffer@,
                head_end(),
                final(self).body_start_location - 4,
            ),
            r is Incomplete ==> final(self).state == ConnectionState::ReadingRequest && no_match(
                final(self).buffer@,
                head_end(),
            ) && final(self).buffer@.len() < REQUEST_BUFFER_SIZE,
            r matches ReadOutcome::TooLarge(_) ==> no_match(final(self).buffer@, head_end())
                && final(self).buffer@.len() == REQUEST_BUFFER_SIZE && final(self).state
                == ConnectionState::WritingResponse && final(self).response->Some_0.status
                == HttpStatus::RequestHeadersTooLarge,
            r matches ReadOutcome::TooLarge(h) ==> h@ == final(self).sent_head()
                && final(self).bytes_requested == credit(
                old(self).bytes_requested,
                final(self).response->Some_0.bytes_to_write,
            ) && final(self).response->Some_0.headers_written,
            !(r is TooLarge) ==> final(self).bytes_requested == old(self).bytes_requested,
            final(self).bytes_read == credit(old(self).bytes_read, data@.len() as usize),
    {
        self.bytes_read = add_held(self.bytes_read, data.len());
        if data.len() == 0 {
            self.state = ConnectionState::Closing;
            return ReadOutcome::Closed;
        }
        crate::text::push_bytes(&mut self.buffer, data);
        match find_body_start(self.buffer.as_slice()) {
            Some(start) => {
                self.body_start_location = start;
                ReadOutcome::HeadComplete
            },
            None => {
                if self.buffer.len() == REQUEST_BUFFER_SIZE {
                    let mut out: Vec<u8> = Vec::new();
                    proof {
                        reveal_strlit("Request headers are too long. The total size must be less than 4KB.");
                    }
                    let msg = lit_vec("Request headers are too long. The total size must be less than 4KB.");
                    self.create_oneoff_response(HttpStatus::RequestHeadersTooLarge, Some(msg), &mut out);
                    ReadOutcome::TooLarge(out)
                } else {
                    ReadOutcome::Incomplete
                }
            },
        }
    }

    fn respond(&mut self, status: HttpStatus, msg: &str) -> (r: Vec<u8>)
        requires
            old(self).wf(),
            vstd::string::is_ascii(msg),
        ensures
            final(self).wf(),
            final(self).state == ConnectionState::WritingResponse,
            final(self).response matches Some(resp) && resp.status == status,
            r@ == final(self).sent_head(),
            final(self).head_request == old(self).head_request,
            final(self).keep_alive == old(self).keep_alive,
            final(self).num_requests == old(self).num_requests,
            final(self).bytes_sent == old(self).bytes_sent,
            final(self).bytes_read == old(self).bytes_read,
            final(self).post_buffer == old(self).post_buffer,
            final(self).last_requested_uri == old(self).last_requested_uri,
            final(self).last_requested_method == old(self).last_requested_method,
    {
        let mut out: Vec<u8> = Vec::new();
        self.create_oneoff_response(status, Some(lit_vec(msg)), &mut out);
        out
    }

    /// Parses the complete request head and applies the dispatch rules:
    /// a malformed head, a disabled server, an unknown method, a POST while
    /// uploads are off or without a boundary each get a prepared response;
    /// GET and HEAD go to `finish_get`, POST to `start_upload`.
    pub fn dispatch(&mut self, flags: &ServerFlags) -> (r: Dispatch)
        requires
            old(self).wf(),
            old(self).state == ConnectionState::ReadingRequest,
        ensures
            final(self).wf(),
            final(self).bytes_sent == old(self).bytes_sent,
            r matches Dispatch::Respond(h) ==> final(self).state == ConnectionState::WritingResponse
                && h@ == final(self).sent_head(),
            ({
                let head = old(self).buffer@.subrange(0, old(self).body_start_location as int);
                final(self).head_request == (parse_request(head) matches Ok(v) && v.method == Some(
                    HttpMethod::HEAD,
                ))
            }),
            ({
                let head = old(self).buffer@.subrange(0, old(self).body_start_location as int);
                match parse_request(head) {
                    Err(e) => r is Respond && !final(self).keep_alive
                        && final(self).response->Some_0.status == e
                        && final(self).num_requests == old(self).num_requests,
                    Ok(v) => (final(self).last_requested_uri matches Some(u) && u@ == v.path)
                        && final(self).last_requested_method == v.method
                        && final(self).num_requests == credit(old(self).num_requests, 1)
                        && if flags.disabled {
                        r is Respond && !final(self).keep_alive
                            && final(self).response->Some_0.status == HttpStatus::ServiceUnavailable
                    } else {
                        final(self).keep_alive == wants_keep_alive(v) && match v.method {
                            None => r is Respond && final(self).response->Some_0.status
                                == HttpStatus::NotImplemented,
                            Some(HttpMethod::POST) => if !flags.uploading {
                                r is Respond && final(self).response->Some_0.status
                                    == HttpStatus::MethodNotAllowed
                            } else {
                                match post_boundary(v.headers) {
                                    None => r is Respond && final(self).response->Some_0.status
                                        == HttpStatus::BadRequest,
                                    Some(b) => (r matches Dispatch::Post(req, bnd) && req@ == v && bnd@ == b
                                        && final(self).state == ConnectionState::ReadingRequest),
                                }
                            },
                            Some(_) => (r matches Dispatch::Get(req) && req@ == v
                                && final(self).state == ConnectionState::ReadingRequest),
                        }
                    },
                }
            }),
    {
        proof {
            reveal_strlit("Could not decode request.");
            reveal_strlit("This server has been temporarily disabled. Please contact the administrator to re-enable it.");
            reveal_strlit("connection");
            reveal_strlit("keep-alive");
            reveal_strlit("This server does not implement the requested HTTP method.");
            reveal_strlit("This server does not accept POST requests.");
            reveal_strlit("Failed to find or parse the multipart boundary.");
        }
        let head = slice_subrange(self.buffer.as_slice(), 0, self.body_start_location);
        self.head_request = false;
        let req = match decode_request(head) {
            Ok(r) => r,
            Err(status) => {
                self.keep_alive = false;
                return Dispatch::Respond(self.respond(status, "Could not decode request."));
            },
        };
        self.last_requested_uri = Some(crate::text::to_vec(req.path.as_slice()));
        self.last_requested_method = req.method;
        self.head_request = req.method == Some(HttpMethod::HEAD);
        self.num_requests = add_held(self.num_requests, 1);
        if flags.disabled {
            self.keep_alive = false;
            return Dispatch::Respond(
                self.respond(
                    HttpStatus::ServiceUnavailable,
                    "This server has been temporarily disabled. Please contact the administrator to re-enable it.",
                ),
            );
        }
        let conn_name = lit_vec("connection");
        let ka = lit_vec("keep-alive");
        proof {
            assert(lower(conn_name@) =~= conn_name@);
        }
        self.keep_alive = match req.get_header(conn_name.as_slice()) {
            Some(v) => {
                let l = to_lower(v.as_slice());
                bytes_eq(l.as_slice(), ka.as_slice())
            },
            None => false,
        };
        match req.method {
            None => Dispatch::Respond(
                self.respond(
                    HttpStatus::NotImplemented,
                    "This server does not implement the requested HTTP method.",
                ),
            ),
            Some(HttpMethod::POST) => {
                if !flags.uploading {
                    return Dispatch::Respond(
                        self.respond(
                            HttpStatus::MethodNotAllowed,
                            "This server does not accept POST requests.",
                        ),
                    );
                }
                match get_post_boundary(&req) {
                    None => Dispatch::Respond(
                        self.respond(
                            HttpStatus::BadRequest,
                            "Failed to find or parse the multipart boundary.",
                        ),
                    ),
                    Some(b) => Dispatch::Post(req, b),
                }
            },
            Some(_) => Dispatch::Get(req),
        }
    }

    /// Installs the response to a GET or HEAD whose path resolved to
    /// `target`, and appends its head to `out`. A HEAD response keeps its
    /// headers and drops its body; a malformed `Range` is answered with
    /// `BadRequest`.
    pub fn finish_get(&mut self, req: &HttpRequest, target: GetTarget, out: &mut Vec<u8>)
        requires
            old(self).wf(),
        ensures
            final(self).wf(),
            final(self).state == ConnectionState::WritingResponse,
            final(self).bytes_sent == old(self).bytes_sent,
            match get_plan(req@, target, old(self).keep_alive) {
                Err(e) => final(self).response->Some_0.status == e,
                Ok((status, hs, n)) => final(self).response->Some_0.status == status
                    && final(self).response->Some_0.headers_view() == hs
                    && final(self).response->Some_0.bytes_to_write == n
                    && final(self).bytes_requested == credit(old(self).bytes_requested, n)
                    && final(self).response->Some_0.body_offset == get_range(req@, target_len(target))->Ok_0.0
                    && (req.method == Some(HttpMethod::HEAD) ==> final(self).response->Some_0.data is Empty),
            },
            final(out)@ == old(out)@ + final(self).sent_head(),
            old(self).head_request ==> final(self).response->Some_0.data is Empty,
    {
        proof {
            reveal_strlit("Could not decode the Range header.");
        }
        let ka = self.keep_alive;
        match build_get_response(req, target, ka) {
            Err(status) => {
                let msg = lit_vec("Could not decode the Range header.");
                self.create_oneoff_response(status, Some(msg), out);
            },
            Ok((resp, n)) => {
                let mut resp = resp;
                resp.write_headers_to_stream(out);
                if req.method == Some(HttpMethod::HEAD) || self.head_request {
                    resp.clear_body();
                }
                self.response = Some(resp);
                self.bytes_requested = add_held(self.bytes_requested, n);
                self.state = ConnectionState::WritingResponse;
            },
        }
    }

    /// Starts receiving an upload: the parser is seeded with the body bytes
    /// that came with the head, and takes its first step.
    pub fn start_upload(&mut self, boundary: &[u8], size_limit: usize) -> (r: PostStep)
        requires
            old(self).wf(),
            old(self).state == ConnectionState::ReadingRequest,
        ensures
            final(self).wf(),
            final(self).bytes_sent == old(self).bytes_sent,
            (boundary@.len() == 0 || boundary@.len() > MAX_BOUNDARY) ==> (r matches PostStep::Respond(h)
                && h@ == final(self).sent_head())
                && final(self).state == ConnectionState::WritingResponse
                && final(self).response->Some_0.status == HttpStatus::BadRequest,
            (0 < boundary@.len() <= MAX_BOUNDARY) ==> final(self).post_buffer is Some
                && final(self).post_buffer->Some_0.post_delimeter@ == seq![45u8, 45u8] + boundary@
                && final(self).upload_step(r, old(self).keep_alive) && final(self).upload_progress(
                PostRequestState::AwaitingFirstBody,
                old(self).buffer@.subrange(old(self).body_start_location as int, old(self).buffer@.len() as int),
                seq![45u8, 45u8] + boundary@,
                !(size_limit > 0 && old(self).buffer@.len() - old(self).body_start_location > size_limit),
                r,
            ),
    {
        proof {
            reveal_strlit("The multipart boundary is empty or too long.");
        }
        if boundary.len() == 0 || boundary.len() > MAX_BOUNDARY {
            self.keep_alive = false;
            return PostStep::Respond(
                self.respond(HttpStatus::BadRequest, "The multipart boundary is empty or too long."),
            );
        }
        let rest = slice_subrange(self.buffer.as_slice(), self.body_start_location, self.buffer.len());
        let pb = PostBuffer::new(boundary, rest, size_limit);
        self.post_buffer = Some(pb);
        self.state = ConnectionState::ReadingPostBody;
        self.check_partial_post_body()
    }

    /// Steps the upload parser. Completion is answered with `Created`, a
    /// failed upload with `ServerError` and the connection closed after it.
    pub fn check_partial_post_body(&mut self) -> (r: PostStep)
        requires
            old(self).wf(),
            old(self).state == ConnectionState::ReadingPostBody,
            old(self).post_buffer->Some_0.pending == Pending::Nothing,
        ensures
            final(self).wf(),
            final(self).bytes_sent == old(self).bytes_sent,
            final(self).bytes_read == old(self).bytes_read,
            final(self).post_buffer is Some,
            final(self).post_buffer->Some_0.post_delimeter == old(self).post_buffer->Some_0.post_delimeter,
            final(self).post_buffer->Some_0.stream == old(self).post_buffer->Some_0.stream,
            final(self).upload_step(r, old(self).keep_alive),
            final(self).upload_progress(
                old(self).post_buffer->Some_0.state,
                old(self).post_buffer->Some_0.window(),
                old(self).post_buffer->Some_0.post_delimeter@,
                old(self).post_buffer->Some_0.within_limit(),
                r,
            ),
    {
        proof {
            reveal_strlit("File received.");
            reveal_strlit("Error while parsing POST request: ");
        }
        let res = match &mut self.post_buffer {
            Some(pb) => pb.handle_new_data_queue_error(),
            None => Ok(PostAction::NeedData),
        };
        match res {
            Ok(PostAction::NeedData) => PostStep::Reading,
            Ok(PostAction::Done) => PostStep::Respond(self.respond(HttpStatus::Created, "File received.")),
            Ok(other) => PostStep::Act(other),
            Err(e) => {
                self.keep_alive = false;
                let mut msg = lit_vec("Error while parsing POST request: ");
                crate::text::push_bytes(&mut msg, e.reason.as_str().as_bytes());
                let mut out: Vec<u8> = Vec::new();
                self.create_oneoff_response(e.code, Some(msg), &mut out);
                PostStep::Respond(out)
            },
        }
    }

    /// Reports whether the file for the current part could be created.
    pub fn post_file_opened(&mut self, ok: bool) -> (r: PostStep)
        requires
            old(self).wf(),
            old(self).state == ConnectionState::ReadingPostBody,
            old(self).post_buffer matches Some(pb) && pb.pending is Opening,
        ensures
            final(self).wf(),
            final(self).bytes_sent == old(self).bytes_sent,
            final(self).upload_step(r, old(self).keep_alive),
    {
        match &mut self.post_buffer {
            Some(pb) => pb.file_opened(ok),
            None => {},
        }
        self.check_partial_post_body()
    }

    /// Reports that `n` bytes of the requested write reached the file, or
    /// (`None`) that the write failed.
    pub fn post_wrote(&mut self, n: Option<usize>) -> (r: PostStep)
        requires
            old(self).wf(),
            old(self).state == ConnectionState::ReadingPostBody,
            old(self).post_buffer matches Some(pb) && pb.pending is Writing,
            n matches Some(k) ==> k <= old(self).post_buffer->Some_0.pending->Writing_0
                - old(self).post_buffer->Some_0.parse_idx,
        ensures
            final(self).wf(),
            final(self).bytes_sent == old(self).bytes_sent,
            final(self).upload_step(r, old(self).keep_alive),
    {
        match &mut self.post_buffer {
            Some(pb) => match n {
                Some(k) => pb.wrote(k),
                None => pb.write_failed(),
            },
            None => {},
        }
        self.check_partial_post_body()
    }

    /// Room left in the upload window.
    pub fn post_room(&self) -> (r: usize)
        requires
            self.wf(),
            self.state == ConnectionState::ReadingPostBody,
        ensures
            r == POST_BUFFER_SIZE - self.post_buffer->Some_0.fill_location,
    {
        match &self.post_buffer {
            Some(pb) => pb.open_len(),
            None => 0,
        }
    }

    /// Takes body bytes read from the peer during an upload. An early end
    /// of the body is answered with `BadRequest`.
    pub fn read_partial_post_body(&mut self, data: &[u8]) -> (r: PostStep)
        requires
            old(self).wf(),
            old(self).state == ConnectionState::ReadingPostBody,
            old(self).post_buffer->Some_0.pending == Pending::Nothing,
            data@.len() <= POST_BUFFER_SIZE - old(self).post_buffer->Some_0.fill_location,
        ensures
            final(self).wf(),
            final(self).bytes_sent == old(self).bytes_sent,
            final(self).bytes_read == credit(old(self).bytes_read, data@.len() as usize),
            data@.len() == 0 ==> (r matches PostStep::Respond(h) && h@ == final(self).sent_head())
                && final(self).state == ConnectionState::WritingResponse
                && final(self).response->Some_0.status == HttpStatus::BadRequest,
            data@.len() > 0 ==> final(self).post_buffer is Some
                && final(self).post_buffer->Some_0.stream@ == old(self).post_buffer->Some_0.stream@ + data@
                && final(self).upload_step(r, old(self).keep_alive) && final(self).upload_progress(
                old(self).post_buffer->Some_0.state,
                old(self).post_buffer->Some_0.window() + data@,
                old(self).post_buffer->Some_0.post_delimeter@,
                ({
                    let pb = old(self).post_buffer->Some_0;
                    !(pb.size_limit > 0 && credit(pb.received, data@.len() as usize) > pb.size_limit)
                }),
                r,
            ),
    {
        proof {
            reveal_strlit("An error occurred while receiving your file.");
        }
        self.bytes_read = add_held(self.bytes_read, data.len());
        if data.len() == 0 {
            return PostStep::Respond(
                self.respond(HttpStatus::BadRequest, "An error occurred while receiving your file."),
            );
        }
        match &mut self.post_buffer {
            Some(pb) => pb.update_fill_location(data),
            None => {},
        }
        self.check_partial_post_body()
    }

    /// Records that `written` of the `read` body bytes taken for this step
    /// reached the peer. Once the response is complete (nothing more was
    /// sent, or all promised bytes were), a keep-alive connection is reset
    /// for the next request and any other is closed.
    pub fn write_partial_response(&mut self, read: usize, written: usize) -> (r: ConnectionState)
        requires
            old(self).wf(),
            old(self).state == ConnectionState::WritingResponse,
            written <= read,
            written <= old(self).response->Some_0.bytes_to_write,
        ensures
            final(self).wf(),
            r == final(self).state,
            final(self).bytes_requested == old(self).bytes_requested,
            final(self).bytes_read == old(self).bytes_read,
            final(self).num_requests == old(self).num_requests,
            old(self).bytes_requested < usize::MAX ==> final(self).bytes_sent == old(self).bytes_sent + written,
            final(self).keep_alive == old(self).keep_alive,
            ({
                let done = written == 0 || final(self).bytes_sent >= final(self).bytes_requested;
                &&& (done && old(self).keep_alive) ==> r == ConnectionState::ReadingRequest
                    && final(self).buffer@.len() == 0 && final(self).response is None
                    && final(self).post_buffer is None
                &&& (done && !old(self).keep_alive) ==> r == ConnectionState::Closing
                &&& !done ==> r == ConnectionState::WritingResponse
                    && final(self).response->Some_0.bytes_to_write
                    == old(self).response->Some_0.bytes_to_write - written
            }),
    {
        match &mut self.response {
            Some(resp) => resp.partial_write_to_stream(read, written),
            None => {},
        }
        if written <= self.bytes_requested - self.bytes_sent {
            self.bytes_sent = self.bytes_sent + written;
        } else {
            self.bytes_sent = self.bytes_requested;
        }
        if written == 0 || self.bytes_sent >= self.bytes_requested {
            if self.keep_alive {
                self.reset();
                self.state = ConnectionState::ReadingRequest;
            } else {
                self.state = ConnectionState::Closing;
            }
        }
        self.state
    }
}

} // verus!
