//! The streaming multipart/form-data parser. It holds a window of upload
//! bytes, finds part headers and boundaries in it, and tells its caller which
//! file to open and which bytes to write there; the caller does the file work
//! and reports back.
use vstd::prelude::*;
use vstd::string::StringExecFns;
use vstd::slice::slice_subrange;
use crate::http_core::{HttpStatus, split, crlf, pieces, bounds_within, split_bounds};
use crate::matcher::{find_in, matches_at, is_first_match, no_match, find_body_start, head_end};
use crate::text::{bytes_eq, find_byte, index_of, lit, lit_vec, lower, skip_ws, to_lower, trim, trim_start, trimmed};

verus! {

/// The size of the staging window.
pub const POST_BUFFER_SIZE: usize = 33554432;

/// The longest boundary accepted.
pub const MAX_BOUNDARY: usize = 4096;

/// An error met while receiving an upload, with the status to answer with.
#[derive(Clone)]
pub struct PostBufferError {
    pub code: HttpStatus,
    pub reason: String,
}

impl PostBufferError {
    pub fn new(code: HttpStatus, reason: String) -> (r: PostBufferError)
        ensures
            r.code == code,
            r.reason@ == reason@,
    {
        PostBufferError { code, reason }
    }

    pub fn server_error(reason: String) -> (r: PostBufferError)
        ensures
            r.code == HttpStatus::ServerError,
            r.reason@ == reason@,
    {
        PostBufferError { code: HttpStatus::ServerError, reason }
    }

    pub fn no_error() -> (r: PostBufferError)
        ensures
            r.code == HttpStatus::OK,
            r.reason@ == "No error occurred."@,
    {
        PostBufferError { code: HttpStatus::OK, reason: String::from_str("No error occurred.") }
    }

    /// Records a further error: the first one sets the status, later ones
    /// only add their reason.
    pub fn add_error(&mut self, e: &PostBufferError)
        ensures
            old(self).code == HttpStatus::OK ==> final(self).code == e.code && final(self).reason@
                == e.reason@,
            old(self).code != HttpStatus::OK ==> final(self).code == old(self).code
                && final(self).reason@ == old(self).reason@ + " "@ + e.reason@,
    {
        if self.code == HttpStatus::OK {
            self.code = e.code;
            self.reason = e.reason.clone();
        } else {
            self.reason.append(" ");
            self.reason.append(e.reason.as_str());
        }
    }

    pub fn get_code(&self) -> (r: HttpStatus)
        ensures
            r == self.code,
    {
        self.code
    }

    pub fn get_reason(&self) -> (r: &String)
        ensures
            r@ == self.reason@,
    {
        &self.reason
    }
}

// ---------------------------------------------------------------------------
// Part headers

/// The text after the `:` of the first line whose name, up to and including
/// the `:`, is `Content-Disposition:` in any case.
pub open spec fn disposition_in(lines: Seq<Seq<u8>>) -> Option<Seq<u8>>
    decreases lines.len(),
{
    if lines.len() == 0 {
        None
    } else {
        let l = lines[0];
        let c = find_byte(l, 58u8);
        if c >= 0 && lower(l.subrange(0, c + 1)) == lit("content-disposition:"@) {
            Some(l.subrange(c + 1, l.len() as int))
        } else {
            disposition_in(lines.drop_first())
        }
    }
}

/// The trimmed value of the first `key=value` parameter whose key, without
/// leading whitespace, is `filename`.
pub open spec fn filename_in(params: Seq<Seq<u8>>) -> Option<Seq<u8>>
    decreases params.len(),
{
    if params.len() == 0 {
        None
    } else {
        let p = params[0];
        let e = find_byte(p, 61u8);
        if e >= 0 && trim_start(p.subrange(0, e)) == lit("filename"@) {
            Some(trim(p.subrange(e + 1, p.len() as int)))
        } else {
            filename_in(params.drop_first())
        }
    }
}

/// The file name that a part's headers give, before unquoting.
pub open spec fn part_filename(meta: Seq<u8>) -> Option<Seq<u8>> {
    let info = disposition_in(split(meta, crlf()));
    if info is None || info->Some_0.len() == 0 {
        None
    } else {
        let f = filename_in(split(info->Some_0, seq![59u8]));
        if f is None || f->Some_0.len() == 0 {
            None
        } else {
            f
        }
    }
}

/// A name in double quotes loses them; an opening quote without a closing
/// one, or nothing between the quotes, is malformed.
pub open spec fn unquote(f: Seq<u8>) -> Option<Seq<u8>> {
    if f.len() >= 1 && f[0] == 34u8 {
        if f.len() >= 3 && f.last() == 34u8 {
            Some(f.subrange(1, f.len() - 1))
        } else {
            None
        }
    } else {
        Some(f)
    }
}

/// What a part's headers ask for: the name of the file to create, or a
/// rejection when there is no file name, it holds a `/`, or its quotes are
/// malformed.
pub open spec fn part_target(meta: Seq<u8>) -> Option<Seq<u8>> {
    match part_filename(meta) {
        None => None,
        Some(f) => if f.contains(47u8) {
            None
        } else {
            unquote(f)
        },
    }
}

fn contains_byte(s: &[u8], b: u8) -> (r: bool)
    ensures
        r == s@.contains(b),
{
    let mut i: usize = 0;
    while i < s.len()
        invariant
            i <= s@.len(),
            forall|k: int| 0 <= k < i ==> s@[k] != b,
        decreases s@.len() - i,
    {
        if s[i] == b {
            assert(s@[i as int] == b);
            return true;
        }
        i = i + 1;
    }
    false
}

fn err(s: &str) -> (r: Result<Vec<u8>, String>)
    ensures
        r is Err,
{
    Err(String::from_str(s))
}

/// Reads the headers of one part and names the file its contents go to.
pub fn parse_part_headers(meta: &[u8]) -> (r: Result<Vec<u8>, String>)
    ensures
        match r {
            Ok(name) => part_target(meta@) == Some(name@),
            Err(_) => part_target(meta@) is None,
        },
{
    proof {
        reveal_strlit("content-disposition:");
        reveal_strlit("filename");
    }
    let crlf_v: Vec<u8> = vec![13u8, 10u8];
    let semi: Vec<u8> = vec![59u8];
    proof {
        assert(crlf_v@ =~= crlf());
        assert(semi@ =~= seq![59u8]);
        assert(meta@.subrange(0, meta@.len() as int) =~= meta@);
    }
    let cd = lit_vec("content-disposition:");
    let lines = split_bounds(meta, 0, meta.len(), crlf_v.as_slice());
    let ghost ls = split(meta@, crlf());
    proof {
        assert(ls.subrange(0, ls.len() as int) =~= ls);
    }
    let mut info: Option<(usize, usize)> = None;
    let mut k: usize = 0;
    while k < lines.len()
        invariant_except_break
            info is None,
        invariant
            k <= lines@.len(),
            bounds_within(lines@, 0, meta@.len() as int),
            pieces(meta@, lines@) == ls,
            cd@ == lit("content-disposition:"@),
            disposition_in(ls) == disposition_in(ls.subrange(k as int, ls.len() as int)),
        ensures
            info is None ==> disposition_in(ls) is None,
            info matches Some(p) ==> p.0 <= p.1 <= meta@.len() && disposition_in(ls) == Some(
                meta@.subrange(p.0 as int, p.1 as int),
            ),
        decreases lines@.len() - k,
    {
        let (a, b) = lines[k];
        let ghost l = meta@.subrange(a as int, b as int);
        assert(ls[k as int] == l);
        proof {
            assert(ls.subrange(k as int, ls.len() as int).drop_first() =~= ls.subrange(
                k + 1,
                ls.len() as int,
            ));
            assert(ls.subrange(k as int, ls.len() as int)[0] == l);
        }
        match index_of(meta, 58u8, a, b) {
            Some(c) => {
                let head = to_lower(slice_subrange(meta, a, c + 1));
                proof {
                    assert(l.subrange(0, c - a + 1) =~= meta@.subrange(a as int, c + 1));
                    assert(l.subrange(c - a + 1, l.len() as int) =~= meta@.subrange(c + 1, b as int));
                }
                if bytes_eq(head.as_slice(), cd.as_slice()) {
                    assert(disposition_in(ls.subrange(k as int, ls.len() as int)) == Some(meta@.subrange(c + 1, b as int)));
                    info = Some((c + 1, b));
                    break;
                }
            },
            None => {},
        }
        k = k + 1;
    }
    let (i0, i1) = match info {
        Some(p) => p,
        None => {
            return err("Did not receive a Content-Disposition.");
        },
    };
    if i0 == i1 {
        return err("Did not receive a Content-Disposition.");
    }
    assert(part_filename(meta@) == filename_in(split(meta@.subrange(i0 as int, i1 as int), seq![59u8])) || part_filename(meta@) is None);
    let params = split_bounds(meta, i0, i1, semi.as_slice());
    let ghost ps = split(meta@.subrange(i0 as int, i1 as int), seq![59u8]);
    proof {
        assert(ps.subrange(0, ps.len() as int) =~= ps);
    }
    let key = lit_vec("filename");
    let mut name: Option<(usize, usize)> = None;
    let mut j: usize = 0;
    while j < params.len()
        invariant_except_break
            name is None,
        invariant
            j <= params@.len(),
            bounds_within(params@, i0 as int, i1 as int),
            i1 <= meta@.len(),
            pieces(meta@, params@) == ps,
            key@ == lit("filename"@),
            filename_in(ps) == filename_in(ps.subrange(j as int, ps.len() as int)),
        ensures
            name is None ==> filename_in(ps) is None,
            name matches Some(p) ==> p.0 <= p.1 <= meta@.len() && filename_in(ps) == Some(
                trim(meta@.subrange(p.0 as int, p.1 as int)),
            ),
        decreases params@.len() - j,
    {
        let (a, b) = params[j];
        let ghost p = meta@.subrange(a as int, b as int);
        assert(ps[j as int] == p);
        proof {
            assert(ps.subrange(j as int, ps.len() as int).drop_first() =~= ps.subrange(
                j + 1,
                ps.len() as int,
            ));
            assert(ps.subrange(j as int, ps.len() as int)[0] == p);
        }
        match index_of(meta, 61u8, a, b) {
            Some(e) => {
                let t = skip_ws(meta, a, e);
                proof {
                    assert(p.subrange(0, e - a) =~= meta@.subrange(a as int, e as int));
                    assert(p.subrange(e - a + 1, p.len() as int) =~= meta@.subrange(e + 1, b as int));
                }
                if bytes_eq(slice_subrange(meta, t, e), key.as_slice()) {
                    assert(filename_in(ps.subrange(j as int, ps.len() as int)) == Some(trim(meta@.subrange(e + 1, b as int))));
                    name = Some((e + 1, b));
                    break;
                }
            },
            None => {},
        }
        j = j + 1;
    }
    let (n0, n1) = match name {
        Some(p) => p,
        None => {
            return err("Could not find attribute with a filename.");
        },
    };
    let f = trimmed(meta, n0, n1);
    if f.len() == 0 {
        return err("Could not find attribute with a filename.");
    }
    if contains_byte(f.as_slice(), 47u8) {
        return err("Invalid filename.");
    }
    if f[0] == 34u8 {
        if f.len() >= 3 && f[f.len() - 1] == 34u8 {
            let inner = crate::text::copy_range(f.as_slice(), 1, f.len() - 1);
            Ok(inner)
        } else {
            err("Malformed quotes around the filename.")
        }
    } else {
        Ok(f)
    }
}

// ---------------------------------------------------------------------------
// The upload state machine

#[derive(Clone, Copy, Debug, PartialEq, Eq, Structural)]
pub enum PostRequestState {
    AwaitingFirstBody,
    AwaitingBody,
    AwaitingMeta,
    DiscardingData,
}

/// What the caller owes the parser before the next step.
#[derive(Clone, Copy, Debug, PartialEq, Eq, Structural)]
pub enum Pending {
    Nothing,
    /// The caller opens a file; the part's contents start at this index.
    Opening(usize),
    /// The caller writes `buffer[parse_idx..to]` to the open file; `last`
    /// when those are the final bytes of the part.
    Writing(usize, bool),
}

/// What the parser asks of its caller.
#[derive(Debug)]
pub enum PostAction {
    /// Read more of the body into the window.
    NeedData,
    /// The closing boundary has arrived.
    Done,
    /// Create this file, new, in the upload directory, then call
    /// `file_opened`.
    Open(Vec<u8>),
    /// Write `buffer[from..to]` to the open file, then call `wrote`.
    Write(usize, usize),
}

pub struct PostBuffer {
    pub fill_location: usize,
    pub buffer: Vec<u8>,
    /// `--` followed by the boundary.
    pub post_delimeter: Vec<u8>,
    pub file_open: bool,
    pub state: PostRequestState,
    pub parse_idx: usize,
    /// Why the upload failed, once it has.
    pub queued_error: PostBufferError,
    /// The most body bytes accepted; 0 for no limit.
    pub size_limit: usize,
    /// Body bytes received so far.
    pub received: usize,
    pub pending: Pending,
    /// Every body byte received so far.
    pub stream: Ghost<Seq<u8>>,
    /// The position in `stream` of `buffer[0]`.
    pub base: Ghost<int>,
    /// While a file is open: where its part's headers start, its name, and
    /// where its contents start, all in `stream`.
    pub part: Ghost<(int, Seq<u8>, int)>,
    /// While a file is open: the bytes written to it.
    pub sent: Ghost<Seq<u8>>,
    /// While a file is being opened: where its part's headers start and its
    /// name.
    pub opening: Ghost<(int, Seq<u8>)>,
    /// The files closed so far.
    pub closed: Ghost<Seq<ClosedPart>>,
}

/// A file an upload produced: where the part's headers start, the file's
/// name, where its contents start and where the boundary after them
/// starts, all in the body stream; and the bytes written to it.
pub struct ClosedPart {
    pub headers: int,
    pub name: Seq<u8>,
    pub start: int,
    pub boundary: int,
    pub contents: Seq<u8>,
}

/// No boundary starts in `st[from..to)`, and each position there is
/// followed by room for a whole one.
pub open spec fn clear(st: Seq<u8>, d: Seq<u8>, from: int, to: int) -> bool {
    &&& (from < to ==> to - 1 + d.len() <= st.len())
    &&& forall|j: int| from <= j < to ==> !#[trigger] matches_at(st, d, j)
}

/// A closed file holds the bytes of its part: its name is what the part's
/// headers give, and its contents run from the end of those headers to the
/// CRLF before the first boundary that follows them.
pub open spec fn part_ok(st: Seq<u8>, d: Seq<u8>, p: ClosedPart) -> bool {
    &&& 0 <= p.headers <= p.start <= p.boundary - 2
    &&& part_target(st.subrange(p.headers, p.start)) == Some(p.name)
    &&& clear(st, d, p.start, p.boundary)
    &&& matches_at(st, d, p.boundary)
    &&& p.contents == st.subrange(p.start, p.boundary - 2)
}

proof fn lemma_matches_grow(st: Seq<u8>, x: Seq<u8>, d: Seq<u8>, j: int)
    requires
        0 <= j,
        j + d.len() <= st.len(),
    ensures
        matches_at(st + x, d, j) == matches_at(st, d, j),
{
    assert((st + x).subrange(j, j + d.len()) =~= st.subrange(j, j + d.len()));
}

/// There is one first occurrence.
proof fn lemma_first_match_unique(w: Seq<u8>, n: Seq<u8>, i: int, j: int)
    requires
        is_first_match(w, n, i),
        is_first_match(w, n, j),
    ensures
        i == j,
{
    if i < j {
        assert(matches_at(w, n, i));
    } else if j < i {
        assert(matches_at(w, n, j));
    }
}

/// What the part headers at the front of a window come to: `None` while
/// they are incomplete, then the file name they give, or `None` inside when
/// they are rejected.
pub open spec fn meta_outcome(w: Seq<u8>) -> Option<Option<Seq<u8>>> {
    if exists|k: int| is_first_match(w, head_end(), k) {
        let k = choose|k: int| is_first_match(w, head_end(), k);
        Some(part_target(w.subrange(0, k + 4)))
    } else {
        None
    }
}

/// A window without a boundary has none in any of its tails.
proof fn lemma_no_match_suffix(w: Seq<u8>, d: Seq<u8>, k: int)
    requires
        0 <= k <= w.len(),
        no_match(w, d),
    ensures
        no_match(w.subrange(k, w.len() as int), d),
{
    assert forall|j: int| !#[trigger] matches_at(w.subrange(k, w.len() as int), d, j) by {
        if j >= 0 {
            lemma_suffix_matches(w, k, d, j);
            assert(!matches_at(w, d, k + j));
        }
    }
}

proof fn lemma_clear_grow(st: Seq<u8>, x: Seq<u8>, d: Seq<u8>, from: int, to: int)
    requires
        0 <= from,
        clear(st, d, from, to),
    ensures
        clear(st + x, d, from, to),
{
    assert forall|j: int| from <= j < to implies !#[trigger] matches_at(st + x, d, j) by {
        assert(!matches_at(st, d, j));
        lemma_matches_grow(st, x, d, j);
    }
}

/// What the window tells of the stream: where its first boundary lies, or
/// that it holds none.
proof fn lemma_window_first_match(st: Seq<u8>, o: int, d: Seq<u8>, i: int)
    requires
        0 <= o <= st.len(),
        is_first_match(st.subrange(o, st.len() as int), d, i),
    ensures
        clear(st, d, o, o + i),
        matches_at(st, d, o + i),
{
    lemma_suffix_matches(st, o, d, i);
    assert forall|j: int| o <= j < o + i implies !#[trigger] matches_at(st, d, j) by {
        lemma_suffix_matches(st, o, d, j - o);
        assert(!matches_at(st.subrange(o, st.len() as int), d, j - o));
    }
}

proof fn lemma_window_no_match(st: Seq<u8>, o: int, d: Seq<u8>, to: int)
    requires
        0 <= o <= to,
        to + d.len() <= st.len(),
        no_match(st.subrange(o, st.len() as int), d),
    ensures
        clear(st, d, o, to),
{
    assert forall|j: int| o <= j < to implies !#[trigger] matches_at(st, d, j) by {
        lemma_suffix_matches(st, o, d, j - o);
        assert(!matches_at(st.subrange(o, st.len() as int), d, j - o));
    }
}

/// Two adjacent clear stretches make one.
proof fn lemma_clear_join(st: Seq<u8>, d: Seq<u8>, a: int, b: int, c: int)
    requires
        a <= b <= c,
        clear(st, d, a, b),
        clear(st, d, b, c),
    ensures
        clear(st, d, a, c),
{
    assert forall|j: int| a <= j < c implies !#[trigger] matches_at(st, d, j) by {
        if j < b {
            assert(!matches_at(st, d, j));
        } else {
            assert(!matches_at(st, d, j));
        }
    }
}

proof fn lemma_part_grow(st: Seq<u8>, x: Seq<u8>, d: Seq<u8>, p: ClosedPart)
    requires
        part_ok(st, d, p),
        d.len() > 0,
    ensures
        part_ok(st + x, d, p),
{
    lemma_clear_grow(st, x, d, p.start, p.boundary);
    lemma_matches_grow(st, x, d, p.boundary);
    assert((st + x).subrange(p.headers, p.start) =~= st.subrange(p.headers, p.start));
    assert((st + x).subrange(p.start, p.boundary - 2) =~= st.subrange(p.start, p.boundary - 2));
}

/// A match in a suffix is a match in the whole, shifted.
proof fn lemma_suffix_matches(st: Seq<u8>, o: int, d: Seq<u8>, i: int)
    requires
        0 <= o <= st.len(),
        0 <= i,
    ensures
        matches_at(st.subrange(o, st.len() as int), d, i) == matches_at(st, d, o + i),
{
    if o + i + d.len() <= st.len() {
        assert(st.subrange(o, st.len() as int).subrange(i, i + d.len()) =~= st.subrange(o + i, o + i + d.len()));
    }
}

/// At `i` the window holds its first boundary, followed by `--`: the end
/// of the upload.
pub open spec fn closing_at(w: Seq<u8>, d: Seq<u8>, i: int) -> bool {
    is_first_match(w, d, i) && i + d.len() + 2 <= w.len() && w[i + d.len()] == 45u8 && w[i
        + d.len() + 1] == 45u8
}

/// Orders the states so that every step without an action either consumes
/// window bytes or moves to a lower state.
pub open spec fn state_rank(s: PostRequestState) -> int {
    match s {
        PostRequestState::DiscardingData => 0,
        PostRequestState::AwaitingFirstBody => 1,
        PostRequestState::AwaitingMeta => 2,
        PostRequestState::AwaitingBody => 3,
    }
}

impl PostBuffer {
    /// The parser's invariant: `parse_idx <= fill_location <= capacity`; a
    /// file is open exactly while a part body is being received; an
    /// outstanding write lies inside the window and holds no boundary; the
    /// window is the unconsumed end of the body stream; the open file has
    /// received its part's bytes so far; and every closed file holds its
    /// part.
    pub open spec fn wf(&self) -> bool {
        &&& self.buffer@.len() == POST_BUFFER_SIZE
        &&& self.parse_idx <= self.fill_location <= self.buffer@.len()
        &&& 2 < self.post_delimeter@.len() <= MAX_BOUNDARY + 2
        &&& self.file_open == (self.state == PostRequestState::AwaitingBody)
        &&& (self.state == PostRequestState::DiscardingData ==> self.queued_error.code != HttpStatus::OK)
        &&& match self.pending {
            Pending::Nothing => true,
            Pending::Opening(b) => self.state == PostRequestState::AwaitingMeta
                && self.parse_idx <= b <= self.fill_location && 0 <= self.opening@.0 <= self.base@ + b
                && part_target(self.stream@.subrange(self.opening@.0, self.base@ + b)) == Some(self.opening@.1),
            Pending::Writing(to, last) => self.state == PostRequestState::AwaitingBody
                && self.parse_idx < to <= self.fill_location
                && clear(self.stream@, self.post_delimeter@, self.base@ + self.parse_idx,
                    self.base@ + to + if last { 2int } else { 0int })
                && (last ==> matches_at(self.stream@, self.post_delimeter@, self.base@ + to + 2)),
        }
        &&& self.stream_wf()
        &&& (self.file_open ==> self.part_wf())
        &&& forall|k: int| 0 <= k < self.closed@.len() ==> part_ok(self.stream@, self.post_delimeter@, #[trigger] self.closed@[k])
    }

    /// The window is the unconsumed end of the body stream.
    pub open spec fn stream_wf(&self) -> bool {
        &&& 0 <= self.base@
        &&& self.base@ + self.fill_location == self.stream@.len()
        &&& self.buffer@.subrange(0, self.fill_location as int) == self.stream@.subrange(
            self.base@,
            self.stream@.len() as int,
        )
    }

    /// The open file has received the part's bytes up to the parse
    /// position, and no boundary starts among them.
    pub open spec fn part_wf(&self) -> bool {
        let (h, name, start) = self.part@;
        &&& 0 <= h <= start <= self.base@ + self.parse_idx
        &&& part_target(self.stream@.subrange(h, start)) == Some(name)
        &&& self.sent@ == self.stream@.subrange(start, self.base@ + self.parse_idx)
        &&& clear(self.stream@, self.post_delimeter@, start, self.base@ + self.parse_idx)
    }

    /// The bytes received and not yet consumed.
    pub open spec fn window(&self) -> Seq<u8> {
        self.buffer@.subrange(self.parse_idx as int, self.fill_location as int)
    }

    /// The size limit, if any, has not been passed.
    pub open spec fn within_limit(&self) -> bool {
        !(self.size_limit > 0 && self.received > self.size_limit)
    }

    /// What the parser waits for, by state: a boundary, or the two bytes
    /// after one; the end of the part's headers; more of the part body than
    /// the tail that may start the next boundary; or, while discarding, a
    /// boundary and the two bytes after it, with all else dropped.
    pub open spec fn needs_data(&self) -> bool {
        let w = self.window();
        let d = self.post_delimeter@;
        match self.state {
            PostRequestState::AwaitingFirstBody => no_match(w, d) || exists|i: int|
                is_first_match(w, d, i) && i + d.len() + 2 > w.len(),
            PostRequestState::AwaitingMeta => no_match(w, head_end()),
            PostRequestState::AwaitingBody => no_match(w, d) && w.len() <= d.len() + 2,
            PostRequestState::DiscardingData => (no_match(w, d) && w.len() <= d.len()) || (
            is_first_match(w, d, 0) && w.len() < d.len() + 2),
        }
    }

    proof fn lemma_window_in_stream(&self)
        requires
            self.stream_wf(),
            self.parse_idx <= self.fill_location <= self.buffer@.len(),
        ensures
            self.window() == self.stream@.subrange(self.base@ + self.parse_idx, self.stream@.len() as int),
            forall|a: int, b: int| 0 <= a <= b <= self.fill_location ==> #[trigger] self.buffer@.subrange(a, b)
                == self.stream@.subrange(self.base@ + a, self.base@ + b),
    {
        let st = self.stream@;
        let pre = self.buffer@.subrange(0, self.fill_location as int);
        assert forall|a: int, b: int| 0 <= a <= b <= self.fill_location implies #[trigger] self.buffer@.subrange(a, b)
            == st.subrange(self.base@ + a, self.base@ + b) by {
            assert forall|k: int| 0 <= k < b - a implies self.buffer@.subrange(a, b)[k] == st.subrange(self.base@ + a, self.base@ + b)[k] by {
                assert(pre[a + k] == st.subrange(self.base@, st.len() as int)[a + k]);
            }
            assert(self.buffer@.subrange(a, b) =~= st.subrange(self.base@ + a, self.base@ + b));
        }
        assert(self.window() == st.subrange(self.base@ + self.parse_idx, self.base@ + self.fill_location));
    }

    /// A parser for an upload whose parts are separated by `--boundary`,
    /// starting with the body bytes that arrived with the request head.
    pub fn new(boundary: &[u8], slice: &[u8], size_limit: usize) -> (r: PostBuffer)
        requires
            0 < boundary@.len() <= MAX_BOUNDARY,
            slice@.len() <= POST_BUFFER_SIZE,
        ensures
            r.wf(),
            r.state == PostRequestState::AwaitingFirstBody,
            r.pending == Pending::Nothing,
            !r.file_open,
            r.window() == slice@,
            r.post_delimeter@ == seq![45u8, 45u8] + boundary@,
            r.stream@ == slice@,
            r.closed@.len() == 0,
            r.size_limit == size_limit,
            r.received == slice@.len(),
            r.queued_error.code == HttpStatus::OK,
    {
        let mut delim: Vec<u8> = vec![45u8, 45u8];
        delim.extend_from_slice(boundary);
        let mut buffer: Vec<u8> = vec![0u8; POST_BUFFER_SIZE];
        let mut i: usize = 0;
        while i < slice.len()
            invariant
                i <= slice@.len() <= POST_BUFFER_SIZE,
                buffer@.len() == POST_BUFFER_SIZE,
                forall|k: int| 0 <= k < i ==> buffer@[k] == slice@[k],
            decreases slice@.len() - i,
        {
            buffer.set(i, slice[i]);
            i = i + 1;
        }
        let r = PostBuffer {
            fill_location: slice.len(),
            buffer,
            post_delimeter: delim,
            file_open: false,
            state: PostRequestState::AwaitingFirstBody,
            parse_idx: 0,
            queued_error: PostBufferError::no_error(),
            size_limit,
            received: slice.len(),
            pending: Pending::Nothing,
            stream: Ghost(slice@),
            base: Ghost(0),
            part: Ghost((0, Seq::empty(), 0)),
            sent: Ghost(Seq::empty()),
            opening: Ghost((0, Seq::empty())),
            closed: Ghost(Seq::empty()),
        };
        proof {
            assert(r.buffer@.subrange(0, r.fill_location as int) =~= r.stream@.subrange(0, r.stream@.len() as int));
            assert(r.window() =~= slice@);
            assert(r.post_delimeter@ =~= seq![45u8, 45u8] + boundary@);
        }
        r
    }

    /// Room left at the end of the window.
    pub fn open_len(&self) -> (r: usize)
        requires
            self.wf(),
        ensures
            r == self.buffer@.len() - self.fill_location,
    {
        self.buffer.len() - self.fill_location
    }

    /// Appends newly received body bytes to the window.
    pub fn update_fill_location(&mut self, data: &[u8])
        requires
            old(self).wf(),
            data@.len() <= old(self).buffer@.len() - old(self).fill_location,
        ensures
            final(self).wf(),
            final(self).window() == old(self).window() + data@,
            final(self).parse_idx == old(self).parse_idx,
            final(self).state == old(self).state,
            final(self).pending == old(self).pending,
            final(self).file_open == old(self).file_open,
            final(self).post_delimeter == old(self).post_delimeter,
            final(self).stream@ == old(self).stream@ + data@,
            final(self).closed@ == old(self).closed@,
            final(self).size_limit == old(self).size_limit,
            final(self).received == if data@.len() <= usize::MAX - old(self).received {
                old(self).received + data@.len()
            } else {
                usize::MAX as int
            },
    {
        let ghost w = self.window();
        let ghost st = self.stream@;
        let start = self.fill_location;
        let mut i: usize = 0;
        while i < data.len()
            invariant
                start == old(self).fill_location,
                self.fill_location == start,
                self.parse_idx == old(self).parse_idx,
                self.state == old(self).state,
                self.pending == old(self).pending,
                self.file_open == old(self).file_open,
                self.post_delimeter == old(self).post_delimeter,
                self.queued_error == old(self).queued_error,
                self.received == old(self).received,
                self.size_limit == old(self).size_limit,
                self.stream == old(self).stream,
                self.base == old(self).base,
                self.part == old(self).part,
                self.sent == old(self).sent,
                self.opening == old(self).opening,
                self.closed == old(self).closed,
                self.buffer@.len() == old(self).buffer@.len(),
                self.buffer@.len() == POST_BUFFER_SIZE,
                start + data@.len() <= self.buffer@.len(),
                i <= data@.len(),
                forall|k: int| 0 <= k < start ==> self.buffer@[k] == old(self).buffer@[k],
                forall|k: int| 0 <= k < i ==> self.buffer@[start + k] == data@[k],
            decreases data@.len() - i,
        {
            self.buffer.set(start + i, data[i]);
            i = i + 1;
        }
        self.fill_location = start + data.len();
        self.stream = Ghost(st + data@);
        self.received = if data.len() <= usize::MAX - self.received {
            self.received + data.len()
        } else {
            usize::MAX
        };
        proof {
            assert(self.window() =~= w + data@);
            let d = self.post_delimeter@;
            assert(self.buffer@.subrange(0, self.fill_location as int) =~= self.stream@.subrange(
                self.base@,
                self.stream@.len() as int,
            )) by {
                assert(old(self).buffer@.subrange(0, start as int) == st.subrange(self.base@, st.len() as int));
                assert forall|k: int| 0 <= k < self.fill_location implies self.buffer@[k] == self.stream@[self.base@ + k] by {
                    if k < start {
                        assert(old(self).buffer@.subrange(0, start as int)[k] == st.subrange(self.base@, st.len() as int)[k]);
                    } else {
                        assert(self.buffer@[start + (k - start)] == data@[k - start]);
                    }
                }
            }
            assert forall|k: int| 0 <= k < self.closed@.len() implies part_ok(self.stream@, d, #[trigger] self.closed@[k]) by {
                lemma_part_grow(st, data@, d, self.closed@[k]);
            }
            if self.file_open {
                let (h, name, ps) = self.part@;
                lemma_clear_grow(st, data@, d, ps, self.base@ + self.parse_idx);
                assert(self.stream@.subrange(h, ps) =~= st.subrange(h, ps));
                assert(self.stream@.subrange(ps, self.base@ + self.parse_idx) =~= st.subrange(ps, self.base@ + self.parse_idx));
            }
            match self.pending {
                Pending::Writing(to, last) => {
                    lemma_clear_grow(st, data@, d, self.base@ + self.parse_idx, self.base@ + to + if last { 2int } else { 0int });
                    if last {
                        lemma_matches_grow(st, data@, d, self.base@ + to + 2);
                    }
                },
                Pending::Opening(b) => {
                    assert(self.stream@.subrange(self.opening@.0, self.base@ + b) =~= st.subrange(self.opening@.0, self.base@ + b));
                },
                Pending::Nothing => {},
            }
        }
    }

    /// Moves the unconsumed bytes to the front of the window.
    fn shuffle(&mut self)
        requires
            old(self).wf(),
            old(self).pending == Pending::Nothing,
        ensures
            final(self).wf(),
            final(self).window() == old(self).window(),
            final(self).parse_idx == 0,
            final(self).state == old(self).state,
            final(self).pending == old(self).pending,
            final(self).file_open == old(self).file_open,
            final(self).post_delimeter == old(self).post_delimeter,
            final(self).stream == old(self).stream,
            final(self).base@ == old(self).base@ + old(self).parse_idx,
            final(self).part == old(self).part,
            final(self).sent == old(self).sent,
            final(self).closed == old(self).closed,
    {
        let p = self.parse_idx;
        let remain = self.fill_location - p;
        let ghost w = self.window();
        let mut k: usize = 0;
        while k < remain
            invariant
                p == old(self).parse_idx,
                remain == old(self).fill_location - p,
                p + remain <= self.buffer@.len(),
                self.buffer@.len() == old(self).buffer@.len(),
                self.parse_idx == p,
                self.fill_location == old(self).fill_location,
                self.state == old(self).state,
                self.pending == old(self).pending,
                self.file_open == old(self).file_open,
                self.post_delimeter == old(self).post_delimeter,
                self.queued_error == old(self).queued_error,
                self.received == old(self).received,
                self.size_limit == old(self).size_limit,
                self.stream == old(self).stream,
                self.base == old(self).base,
                self.part == old(self).part,
                self.sent == old(self).sent,
                self.opening == old(self).opening,
                self.closed == old(self).closed,
                w == old(self).window(),
                k <= remain,
                forall|j: int| 0 <= j < k ==> self.buffer@[j] == w[j],
                forall|j: int| k <= j < self.buffer@.len() ==> self.buffer@[j] == old(self).buffer@[j],
            decreases remain - k,
        {
            let b = self.buffer[p + k];
            self.buffer.set(k, b);
            k = k + 1;
        }
        self.parse_idx = 0;
        self.fill_location = remain;
        self.base = Ghost(self.base@ + p);
        proof {
            assert(self.window() =~= w);
            let st = self.stream@;
            let ob = old(self).base@;
            assert(old(self).buffer@.subrange(0, old(self).fill_location as int) == st.subrange(ob, st.len() as int));
            assert forall|j: int| 0 <= j < remain implies self.buffer@[j] == st[self.base@ + j] by {
                assert(w[j] == old(self).buffer@[p + j]);
                assert(old(self).buffer@.subrange(0, old(self).fill_location as int)[p + j] == st.subrange(ob, st.len() as int)[p + j]);
            }
            assert(self.buffer@.subrange(0, self.fill_location as int) =~= st.subrange(self.base@, st.len() as int));
        }
    }

    fn fail(&mut self, reason: &str)
        requires
            old(self).wf(),
            old(self).pending == Pending::Nothing,
        ensures
            final(self).wf(),
            final(self).state == PostRequestState::DiscardingData,
            final(self).pending == Pending::Nothing,
            !final(self).file_open,
            final(self).window() == old(self).window(),
            final(self).parse_idx == old(self).parse_idx,
            final(self).fill_location == old(self).fill_location,
            final(self).post_delimeter == old(self).post_delimeter,
            final(self).closed == old(self).closed,
            final(self).stream == old(self).stream,
            final(self).size_limit == old(self).size_limit,
            final(self).received == old(self).received,
            old(self).queued_error.code == HttpStatus::OK ==> final(self).queued_error.code == HttpStatus::ServerError,
            old(self).queued_error.code != HttpStatus::OK ==> final(self).queued_error.code == old(self).queued_error.code,
    {
        self.fail_with(HttpStatus::ServerError, reason);
    }

    /// Switches to discarding the rest of the body, recording why.
    fn fail_with(&mut self, code: HttpStatus, reason: &str)
        requires
            old(self).wf(),
            old(self).pending == Pending::Nothing,
            code != HttpStatus::OK,
        ensures
            final(self).size_limit == old(self).size_limit,
            final(self).received == old(self).received,
            final(self).stream == old(self).stream,
            old(self).queued_error.code == HttpStatus::OK ==> final(self).queued_error.code == code,
            old(self).queued_error.code != HttpStatus::OK ==> final(self).queued_error.code == old(self).queued_error.code,
            final(self).wf(),
            final(self).state == PostRequestState::DiscardingData,
            final(self).pending == Pending::Nothing,
            !final(self).file_open,
            final(self).window() == old(self).window(),
            final(self).parse_idx == old(self).parse_idx,
            final(self).fill_location == old(self).fill_location,
            final(self).post_delimeter == old(self).post_delimeter,
            final(self).closed == old(self).closed,
    {
        let e = PostBufferError::new(code, String::from_str(reason));
        self.queued_error.add_error(&e);
        self.state = PostRequestState::DiscardingData;
        self.file_open = false;
    }

    /// Consumes what the window holds until the parser needs the caller:
    /// for more data, to open a file, to write bytes, or because the upload
    /// is complete. A malformed upload switches to discarding the rest of
    /// the body, and the reason is queued.
    pub fn handle_new_data(&mut self) -> (r: PostAction)
        requires
            old(self).wf(),
            old(self).pending == Pending::Nothing,
        ensures
            final(self).wf(),
            final(self).post_delimeter == old(self).post_delimeter,
            match r {
                PostAction::NeedData => final(self).pending == Pending::Nothing && final(self).needs_data(),
                PostAction::Done => final(self).pending == Pending::Nothing && exists|i: int|
                    closing_at(final(self).window(), final(self).post_delimeter@, i),
                PostAction::Open(name) => final(self).state == PostRequestState::AwaitingMeta
                    && final(self).opening@.1 == name@
                    && (final(self).pending matches Pending::Opening(b) && final(self).parse_idx + 4
                    <= b && is_first_match(
                    final(self).window(),
                    head_end(),
                    b - 4 - final(self).parse_idx,
                ) && part_target(final(self).buffer@.subrange(final(self).parse_idx as int, b as int))
                    == Some(name@)),
                PostAction::Write(from, to) => final(self).state == PostRequestState::AwaitingBody
                    && final(self).file_open && from == final(self).parse_idx && from < to
                    && (final(self).pending matches Pending::Writing(t, last) && t == to && (last
                    ==> to + 2 <= final(self).fill_location && is_first_match(
                    final(self).window(),
                    final(self).post_delimeter@,
                    to + 2 - final(self).parse_idx,
                )) && (!last ==> no_match(final(self).window(), final(self).post_delimeter@) && to
                    + final(self).post_delimeter@.len() + 2 == final(self).fill_location)),
            },
            final(self).stream == old(self).stream,
            old(self).state == PostRequestState::AwaitingMeta && old(self).within_limit() ==> match meta_outcome(old(self).window()) {
                None => r is NeedData,
                Some(Some(n)) => (r matches PostAction::Open(m) && m@ == n),
                Some(None) => final(self).state == PostRequestState::DiscardingData,
            },
            (old(self).state == PostRequestState::AwaitingFirstBody && old(self).within_limit()
                || old(self).state == PostRequestState::DiscardingData) && (exists|i: int|
                closing_at(old(self).window(), old(self).post_delimeter@, i)) ==> r is Done
                && final(self).state == old(self).state,
            old(self).state != PostRequestState::DiscardingData && !old(self).within_limit()
                ==> final(self).state == PostRequestState::DiscardingData,
            old(self).state == PostRequestState::DiscardingData ==> final(self).state
                == PostRequestState::DiscardingData,
    {
        let ghost d = self.post_delimeter@;
        let ghost w_old = self.window();
        let ghost mut first = true;
        proof {
            reveal_strlit("The upload is larger than allowed.");
        }
        if self.size_limit > 0 && self.received > self.size_limit
            && self.state != PostRequestState::DiscardingData {
            self.fail_with(HttpStatus::PayloadTooLarge, "The upload is larger than allowed.");
        }
        loop
            invariant
                self.wf(),
                self.pending == Pending::Nothing,
                self.post_delimeter@ == d,
                self.post_delimeter == old(self).post_delimeter,
                w_old == old(self).window(),
                self.stream == old(self).stream,
                first ==> self.window() == w_old,
                first && (old(self).within_limit() || old(self).state == PostRequestState::DiscardingData)
                    ==> self.state == old(self).state,
                !first && old(self).state == PostRequestState::AwaitingMeta && old(self).within_limit()
                    ==> self.state == PostRequestState::DiscardingData && meta_outcome(w_old) == Some(
                    None::<Seq<u8>>,
                ),
                !first && (old(self).state == PostRequestState::AwaitingFirstBody && old(self).within_limit()
                    || old(self).state == PostRequestState::DiscardingData) ==> !(exists|i: int|
                    closing_at(w_old, d, i)),
                old(self).state != PostRequestState::DiscardingData && !old(self).within_limit()
                    ==> self.state == PostRequestState::DiscardingData,
                old(self).state == PostRequestState::DiscardingData ==> self.state
                    == PostRequestState::DiscardingData,
            decreases self.fill_location - self.parse_idx, state_rank(self.state),
        {
            let dlen = self.post_delimeter.len();
            let fill = self.fill_location;
            let found = if self.state == PostRequestState::AwaitingMeta {
                None
            } else {
                find_in(self.post_delimeter.as_slice(), self.buffer.as_slice(), self.parse_idx, fill)
            };
            match self.state {
                PostRequestState::DiscardingData => {
                    match found {
                        None => {
                            let ghost w0 = self.window();
                            if fill - self.parse_idx > dlen {
                                proof {
                                    lemma_no_match_suffix(w0, d, (fill - dlen - self.parse_idx) as int);
                                    assert(w0.subrange((fill - dlen - self.parse_idx) as int, w0.len() as int)
                                        =~= self.buffer@.subrange((fill - dlen) as int, fill as int));
                                }
                                self.parse_idx = fill - dlen;
                            }
                            self.shuffle();
                            return PostAction::NeedData;
                        },
                        Some(idx) => {
                            let new_idx = idx + dlen;
                            if fill - new_idx < 2 {
                                proof {
                                    let w0 = self.window();
                                    let k = idx - self.parse_idx;
                                    assert forall|i: int| !closing_at(w0, d, i) by {
                                        if closing_at(w0, d, i) {
                                            lemma_first_match_unique(w0, d, i, k as int);
                                        }
                                    }
                                    lemma_suffix_matches(w0, k as int, d, 0);
                                    assert(w0.subrange(k as int, w0.len() as int) =~= self.buffer@.subrange(idx as int, fill as int));
                                }
                                self.parse_idx = idx;
                                self.shuffle();
                                return PostAction::NeedData;
                            }
                            if self.buffer[new_idx] == 45u8 && self.buffer[new_idx + 1] == 45u8 {
                                proof {
                                    assert(closing_at(self.window(), d, idx - self.parse_idx));
                                }
                                return PostAction::Done;
                            }
                            proof {
                                let w0 = self.window();
                                assert forall|i: int| !closing_at(w0, d, i) by {
                                    if closing_at(w0, d, i) {
                                        lemma_first_match_unique(w0, d, i, idx - self.parse_idx);
                                    }
                                }
                            }
                            self.parse_idx = new_idx;
                        },
                    }
                },
                PostRequestState::AwaitingFirstBody => {
                    match found {
                        None => {
                            return PostAction::NeedData;
                        },
                        Some(idx) => {
                            let new_idx = idx + dlen;
                            if fill - new_idx < 2 {
                                proof {
                                    let w0 = self.window();
                                    assert(is_first_match(w0, d, idx - self.parse_idx));
                                    assert forall|i: int| !closing_at(w0, d, i) by {
                                        if closing_at(w0, d, i) {
                                            lemma_first_match_unique(w0, d, i, idx - self.parse_idx);
                                        }
                                    }
                                }
                                return PostAction::NeedData;
                            }
                            if self.buffer[new_idx] == 45u8 && self.buffer[new_idx + 1] == 45u8 {
                                proof {
                                    assert(closing_at(self.window(), d, idx - self.parse_idx));
                                }
                                return PostAction::Done;
                            }
                            proof {
                                let w0 = self.window();
                                assert forall|i: int| !closing_at(w0, d, i) by {
                                    if closing_at(w0, d, i) {
                                        lemma_first_match_unique(w0, d, i, idx - self.parse_idx);
                                    }
                                }
                            }
                            self.parse_idx = new_idx + 2;
                            self.state = PostRequestState::AwaitingMeta;
                        },
                    }
                },
                PostRequestState::AwaitingBody => {
                    match found {
                        None => {
                            // The tail may hold the start of the CRLF and
                            // boundary that end the part: keep it.
                            let keep = dlen + 2;
                            if fill < keep || fill - keep <= self.parse_idx {
                                return PostAction::NeedData;
                            }
                            let to = fill - keep;
                            proof {
                                self.lemma_window_in_stream();
                                lemma_window_no_match(self.stream@, self.base@ + self.parse_idx, d, self.base@ + to);
                            }
                            self.pending = Pending::Writing(to, false);
                            return PostAction::Write(self.parse_idx, to);
                        },
                        Some(idx) => {
                            proof {
                                self.lemma_window_in_stream();
                                lemma_window_first_match(self.stream@, self.base@ + self.parse_idx, d, idx - self.parse_idx);
                            }
                            if idx < 2 || idx - 2 < self.parse_idx {
                                self.fail("No CRLF before the boundary.");
                            } else {
                                let end = idx - 2;
                                if end == self.parse_idx {
                                    proof {
                                        let (h, name, ps) = self.part@;
                                        lemma_clear_join(self.stream@, d, ps, self.base@ + self.parse_idx, self.base@ + idx);
                                    }
                                    let ghost done = ClosedPart {
                                        headers: self.part@.0,
                                        name: self.part@.1,
                                        start: self.part@.2,
                                        boundary: self.base@ + idx,
                                        contents: self.sent@,
                                    };
                                    self.closed = Ghost(self.closed@.push(done));
                                    proof {
                                        assert(part_ok(self.stream@, d, done));
                                        assert forall|k: int| 0 <= k < self.closed@.len() implies part_ok(self.stream@, d, #[trigger] self.closed@[k]) by {
                                            if k < self.closed@.len() - 1 {
                                                assert(self.closed@[k] == self.closed@.drop_last()[k]);
                                            }
                                        }
                                    }
                                    self.file_open = false;
                                    self.state = PostRequestState::AwaitingFirstBody;
                                } else {
                                    self.pending = Pending::Writing(end, true);
                                    return PostAction::Write(self.parse_idx, end);
                                }
                            }
                        },
                    }
                },
                PostRequestState::AwaitingMeta => {
                    let body = find_body_start(slice_subrange(self.buffer.as_slice(), self.parse_idx, fill));
                    match body {
                        None => {
                            return PostAction::NeedData;
                        },
                        Some(off) => {
                            let body_start = self.parse_idx + off;
                            proof {
                                let w0 = self.window();
                                assert(is_first_match(w0, head_end(), off - 4));
                                let k = choose|k: int| is_first_match(w0, head_end(), k);
                                lemma_first_match_unique(w0, head_end(), k, off - 4);
                                assert(w0.subrange(0, off as int) =~= self.buffer@.subrange(self.parse_idx as int, body_start as int));
                                assert(meta_outcome(w0) == Some(part_target(self.buffer@.subrange(self.parse_idx as int, body_start as int))));
                            }
                            let meta = slice_subrange(self.buffer.as_slice(), self.parse_idx, body_start);
                            match parse_part_headers(meta) {
                                Ok(name) => {
                                    proof {
                                        self.lemma_window_in_stream();
                                        assert(self.buffer@.subrange(self.parse_idx as int, body_start as int) == self.stream@.subrange(self.base@ + self.parse_idx, self.base@ + body_start));
                                    }
                                    self.opening = Ghost((self.base@ + self.parse_idx, name@));
                                    self.pending = Pending::Opening(body_start);
                                    return PostAction::Open(name);
                                },
                                Err(e) => {
                                    self.fail(e.as_str());
                                },
                            }
                        },
                    }
                },
            }
            proof {
                first = false;
            }
        }
    }

    /// Reports whether the file asked for by `Open` could be created.
    pub fn file_opened(&mut self, ok: bool)
        requires
            old(self).wf(),
            old(self).pending is Opening,
        ensures
            final(self).wf(),
            final(self).pending == Pending::Nothing,
            final(self).post_delimeter == old(self).post_delimeter,
            ok ==> final(self).state == PostRequestState::AwaitingBody && final(self).file_open
                && final(self).parse_idx == old(self).pending->Opening_0
                && final(self).sent@.len() == 0 && final(self).part@.1 == old(self).opening@.1,
            final(self).closed == old(self).closed,
            !ok ==> final(self).state == PostRequestState::DiscardingData && !final(self).file_open,
    {
        let b = match self.pending {
            Pending::Opening(b) => b,
            _ => self.parse_idx,
        };
        self.pending = Pending::Nothing;
        if ok {
            self.part = Ghost((self.opening@.0, self.opening@.1, self.base@ + b));
            self.sent = Ghost(Seq::empty());
            self.parse_idx = b;
            self.file_open = true;
            self.state = PostRequestState::AwaitingBody;
            proof {
                assert(self.stream@.subrange(self.base@ + b, self.base@ + b) =~= Seq::<u8>::empty());
            }
        } else {
            self.fail("Could not open file for writing.");
        }
    }

    /// Reports that `n` bytes of the outstanding write reached the file. The
    /// written bytes leave the window; once the last bytes of a part are
    /// written the file is closed.
    pub fn wrote(&mut self, n: usize)
        requires
            old(self).wf(),
            old(self).pending is Writing,
            n <= old(self).pending->Writing_0 - old(self).parse_idx,
        ensures
            final(self).wf(),
            final(self).pending == Pending::Nothing,
            final(self).post_delimeter == old(self).post_delimeter,
            final(self).window() == old(self).window().subrange(n as int, old(self).window().len() as int),
            final(self).parse_idx == 0,
            (old(self).pending->Writing_1 && n == old(self).pending->Writing_0 - old(self).parse_idx)
                ==> (final(self).state == PostRequestState::AwaitingFirstBody && !final(self).file_open),
            !(old(self).pending->Writing_1 && n == old(self).pending->Writing_0 - old(self).parse_idx)
                ==> (final(self).state == PostRequestState::AwaitingBody && final(self).file_open),
            !(old(self).pending->Writing_1 && n == old(self).pending->Writing_0 - old(self).parse_idx)
                ==> final(self).sent@ == old(self).sent@ + old(self).buffer@.subrange(
                old(self).parse_idx as int,
                old(self).parse_idx + n,
            ) && final(self).closed == old(self).closed,
            (old(self).pending->Writing_1 && n == old(self).pending->Writing_0 - old(self).parse_idx)
                ==> final(self).closed@.len() == old(self).closed@.len() + 1
                && final(self).closed@.drop_last() == old(self).closed@
                && final(self).closed@.last().contents == old(self).sent@ + old(self).buffer@.subrange(
                old(self).parse_idx as int,
                old(self).parse_idx + n,
            ) && final(self).closed@.last().name == old(self).part@.1,
    {
        let ghost w = self.window();
        let (to, last) = match self.pending {
            Pending::Writing(to, last) => (to, last),
            _ => (self.parse_idx, false),
        };
        let p0 = self.parse_idx;
        let ghost d = self.post_delimeter@;
        let ghost st = self.stream@;
        let ghost b0 = self.base@;
        let ghost ps = self.part@.2;
        let ghost q = b0 + to + 2;
        proof {
            self.lemma_window_in_stream();
            assert(self.buffer@.subrange(p0 as int, p0 + n) == st.subrange(b0 + p0, b0 + p0 + n));
            assert(clear(st, d, b0 + p0, b0 + p0 + n)) by {
                assert forall|j: int| b0 + p0 <= j < b0 + p0 + n implies !#[trigger] matches_at(st, d, j) by {
                    assert(b0 + p0 <= j < b0 + to + if last { 2int } else { 0int });
                }
            }
            lemma_clear_join(st, d, ps, b0 + p0, b0 + p0 + n);
            assert(st.subrange(ps, b0 + p0) + st.subrange(b0 + p0, b0 + p0 + n) =~= st.subrange(ps, b0 + p0 + n));
            if last && n == to - p0 {
                lemma_clear_join(st, d, ps, b0 + p0, q);
            }
        }
        self.sent = Ghost(self.sent@ + self.buffer@.subrange(p0 as int, p0 + n));
        self.pending = Pending::Nothing;
        self.parse_idx = p0 + n;
        proof {
            assert(self.window() =~= w.subrange(n as int, w.len() as int));
        }
        self.shuffle();
        if last && n == to - p0 {
            let ghost done = ClosedPart {
                headers: self.part@.0,
                name: self.part@.1,
                start: ps,
                boundary: q,
                contents: self.sent@,
            };
            self.closed = Ghost(self.closed@.push(done));
            proof {
                assert(self.closed@.drop_last() =~= old(self).closed@);
                assert(part_ok(self.stream@, d, done));
                assert forall|k: int| 0 <= k < self.closed@.len() implies part_ok(self.stream@, d, #[trigger] self.closed@[k]) by {
                    if k < self.closed@.len() - 1 {
                        assert(self.closed@[k] == self.closed@.drop_last()[k]);
                    }
                }
            }
            self.file_open = false;
            self.state = PostRequestState::AwaitingFirstBody;
        }
    }

    /// Reports that the outstanding write failed.
    pub fn write_failed(&mut self)
        requires
            old(self).wf(),
            old(self).pending is Writing,
        ensures
            final(self).wf(),
            final(self).pending == Pending::Nothing,
            final(self).state == PostRequestState::DiscardingData,
            !final(self).file_open,
    {
        self.pending = Pending::Nothing;
        self.fail("Error writing to file.");
    }

    /// Steps the parser; an upload that ends while discarding yields the
    /// queued reasons as the error.
    pub fn handle_new_data_queue_error(&mut self) -> (r: Result<PostAction, PostBufferError>)
        requires
            old(self).wf(),
            old(self).pending == Pending::Nothing,
        ensures
            final(self).wf(),
            final(self).post_delimeter == old(self).post_delimeter,
            r matches Err(e) ==> final(self).state == PostRequestState::DiscardingData
                && e.code == final(self).queued_error.code && e.reason@ == final(self).queued_error.reason@
                && e.code != HttpStatus::OK,
            r matches Ok(PostAction::Done) ==> final(self).state != PostRequestState::DiscardingData
                && final(self).pending == Pending::Nothing && exists|i: int|
                closing_at(final(self).window(), final(self).post_delimeter@, i),
            r matches Err(_) ==> exists|i: int|
                closing_at(final(self).window(), final(self).post_delimeter@, i),
            r matches Ok(PostAction::Write(from, to)) ==> final(self).state == PostRequestState::AwaitingBody
                && final(self).file_open && from == final(self).parse_idx && from < to
                && (final(self).pending matches Pending::Writing(t, last) && t == to && (last
                ==> to + 2 <= final(self).fill_location && is_first_match(
                final(self).window(),
                final(self).post_delimeter@,
                to + 2 - final(self).parse_idx,
            )) && (!last ==> no_match(final(self).window(), final(self).post_delimeter@) && to
                + final(self).post_delimeter@.len() + 2 == final(self).fill_location)),
            r matches Ok(PostAction::Open(name)) ==> final(self).state == PostRequestState::AwaitingMeta
                && final(self).opening@.1 == name@
                && (final(self).pending matches Pending::Opening(b) && final(self).parse_idx + 4
                <= b && is_first_match(
                final(self).window(),
                head_end(),
                b - 4 - final(self).parse_idx,
            ) && part_target(final(self).buffer@.subrange(final(self).parse_idx as int, b as int))
                == Some(name@)),
            r matches Ok(PostAction::NeedData) ==> final(self).needs_data(),
            final(self).stream == old(self).stream,
            old(self).state == PostRequestState::AwaitingMeta && old(self).within_limit() ==> match meta_outcome(old(self).window()) {
                None => (r matches Ok(PostAction::NeedData)),
                Some(Some(n)) => (r matches Ok(PostAction::Open(m)) && m@ == n),
                Some(None) => final(self).state == PostRequestState::DiscardingData,
            },
            old(self).state == PostRequestState::AwaitingFirstBody && old(self).within_limit()
                && (exists|i: int| closing_at(old(self).window(), old(self).post_delimeter@, i))
                ==> (r matches Ok(PostAction::Done)),
            old(self).state == PostRequestState::DiscardingData
                && (exists|i: int| closing_at(old(self).window(), old(self).post_delimeter@, i))
                ==> r is Err,
            old(self).state != PostRequestState::DiscardingData && !old(self).within_limit()
                ==> final(self).state == PostRequestState::DiscardingData,
            r matches Ok(PostAction::NeedData) ==> final(self).pending == Pending::Nothing,
    {
        let a = self.handle_new_data();
        match a {
            PostAction::Done => {
                if self.state == PostRequestState::DiscardingData {
                    Err(PostBufferError::new(self.queued_error.code, self.queued_error.reason.clone()))
                } else {
                    Ok(PostAction::Done)
                }
            },
            other => Ok(other),
        }
    }

    pub fn has_open_file(&self) -> (r: bool)
        ensures
            r == self.file_open,
    {
        self.file_open
    }
}

/// Every file an upload has closed holds exactly its part: its name is the
/// one the part's headers give, and its contents, the bytes handed out by
/// `Write` and confirmed by `wrote`, are the body bytes from the end of those
/// headers up to the CRLF before the first boundary that follows them.
pub proof fn lemma_closed_files_hold_their_parts(pb: &PostBuffer, k: int)
    requires
        pb.wf(),
        0 <= k < pb.closed@.len(),
    ensures
        part_ok(pb.stream@, pb.post_delimeter@, pb.closed@[k]),
{
}

} // verus!
