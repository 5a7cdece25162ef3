//! What the dashboard shows: the most recent log lines, newest first, and
//! the controls a user can send to the engine.
use vstd::prelude::*;
use crate::connection::HttpConnection;

verus! {

/// How many log lines are kept.
pub const HISTORY_LEN: usize = 50;

/// A ring of the last log lines.
pub struct History {
    pub history: Vec<Option<String>>,
    /// Where the next line goes.
    pub history_idx: usize,
}

/// The slot before `i` in a ring of `n` slots.
pub open spec fn prev_slot(i: int, n: int) -> int {
    if i == 0 {
        n - 1
    } else {
        i - 1
    }
}

impl History {
    pub open spec fn wf(&self) -> bool {
        self.history@.len() == HISTORY_LEN && self.history_idx < HISTORY_LEN
    }

    pub fn new() -> (r: History)
        ensures
            r.wf(),
            r.history_idx == 0,
            forall|i: int| 0 <= i < HISTORY_LEN ==> #[trigger] r.history@[i] is None,
    {
        let mut v: Vec<Option<String>> = Vec::new();
        let mut i: usize = 0;
        while i < HISTORY_LEN
            invariant
                i <= HISTORY_LEN,
                v@.len() == i,
                forall|k: int| 0 <= k < i ==> #[trigger] v@[k] is None,
            decreases HISTORY_LEN - i,
        {
            v.push(None);
            i = i + 1;
        }
        History { history: v, history_idx: 0 }
    }

    /// Stores a line in the oldest slot.
    pub fn push(&mut self, s: String)
        requires
            old(self).wf(),
        ensures
            final(self).wf(),
            final(self).history@ == old(self).history@.update(old(self).history_idx as int, Some(s)),
            final(self).history_idx == (old(self).history_idx + 1) % (HISTORY_LEN as int),
    {
        let i = self.history_idx;
        self.history.set(i, Some(s));
        self.history_idx = (i + 1) % HISTORY_LEN;
    }

    pub fn iter<'a>(&'a self) -> (r: HistoryIterator<'a>)
        requires
            self.wf(),
        ensures
            r.wf(),
            r.data == self,
            r.curr_idx == prev_slot(self.history_idx as int, HISTORY_LEN as int),
            r.start_idx == r.curr_idx,
            !r.done,
    {
        HistoryIterator::new(self)
    }

    /// The slot of the newest line.
    pub fn get_idx(&self) -> (r: usize)
        requires
            self.wf(),
        ensures
            r == prev_slot(self.history_idx as int, self.history@.len() as int),
            r < HISTORY_LEN,
    {
        if self.history_idx == 0 {
            self.capacity() - 1
        } else {
            self.history_idx - 1
        }
    }

    pub fn get(&self, i: usize) -> (r: &Option<String>)
        requires
            i < self.history@.len(),
        ensures
            *r == self.history@[i as int],
    {
        &self.history[i]
    }

    pub fn capacity(&self) -> (r: usize)
        ensures
            r == self.history@.len(),
    {
        self.history.len()
    }
}

/// Walks the lines from the newest to the oldest, once round the ring.
pub struct HistoryIterator<'a> {
    pub data: &'a History,
    pub curr_idx: usize,
    pub start_idx: usize,
    pub done: bool,
}

impl<'a> HistoryIterator<'a> {
    pub open spec fn wf(&self) -> bool {
        self.data.wf() && self.curr_idx < HISTORY_LEN && self.start_idx < HISTORY_LEN
    }

    pub fn new(hist: &'a History) -> (r: HistoryIterator<'a>)
        requires
            hist.wf(),
        ensures
            r.wf(),
            r.data == hist,
            r.curr_idx == prev_slot(hist.history_idx as int, HISTORY_LEN as int),
            r.start_idx == r.curr_idx,
            !r.done,
    {
        let i = hist.get_idx();
        HistoryIterator { data: hist, curr_idx: i, start_idx: i, done: false }
    }

    /// The next older line; `None` once the ring has been walked round or an
    /// empty slot is met.
    pub fn next(&mut self) -> (r: Option<&'a String>)
        requires
            old(self).wf(),
        ensures
            final(self).wf(),
            final(self).data == old(self).data,
            final(self).start_idx == old(self).start_idx,
            old(self).done ==> r is None,
            !old(self).done ==> match old(self).data.history@[old(self).curr_idx as int] {
                Some(s) => r == Some(&s) && final(self).curr_idx == prev_slot(
                    old(self).curr_idx as int,
                    HISTORY_LEN as int,
                ),
                None => r is None,
            },
            !old(self).done ==> final(self).done == (prev_slot(
                old(self).curr_idx as int,
                HISTORY_LEN as int,
            ) == old(self).start_idx),
    {
        if self.done {
            return None;
        }
        let next_idx = if self.curr_idx == 0 {
            self.data.capacity() - 1
        } else {
            self.curr_idx - 1
        };
        if next_idx == self.start_idx {
            self.done = true;
        }
        match self.data.get(self.curr_idx) {
            Some(s) => {
                self.curr_idx = next_idx;
                Some(s)
            },
            None => None,
        }
    }
}

/// What a user can ask of the running server.
#[derive(Clone, Copy, Debug, PartialEq, Eq, Structural)]
pub enum ControlEvent {
    Quit,
    Toggle,
    CloseAll,
}

/// What the dashboard shows of one connection.
pub struct ConnectionStats {
    pub bytes_sent: usize,
    pub bytes_requested: usize,
    pub bytes_read: usize,
    pub last_requested_uri: Vec<u8>,
    pub num_requests: usize,
}

impl ConnectionStats {
    /// A connection whose first request is still being read.
    pub fn new() -> (r: ConnectionStats)
        ensures
            r.bytes_sent == 0 && r.bytes_requested == 0 && r.bytes_read == 0,
            r.num_requests == 0,
            r.last_requested_uri@ == crate::text::lit("[Reading...]"@),
    {
        proof {
            reveal_strlit("[Reading...]");
        }
        ConnectionStats {
            bytes_sent: 0,
            bytes_requested: 0,
            bytes_read: 0,
            last_requested_uri: crate::text::lit_vec("[Reading...]"),
            num_requests: 0,
        }
    }

    /// Copies the counters of a live connection; the shown path changes
    /// only when a new request has been made. Returns whether it did.
    pub fn update(&mut self, conn: &HttpConnection) -> (r: bool)
        ensures
            final(self).bytes_sent == conn.bytes_sent,
            final(self).bytes_requested == conn.bytes_requested,
            final(self).bytes_read == conn.bytes_read,
            r == (conn.last_requested_uri is Some && old(self).num_requests < conn.num_requests),
            r ==> final(self).num_requests == conn.num_requests
                && final(self).last_requested_uri@ == conn.last_requested_uri->Some_0@,
            !r ==> final(self).num_requests == old(self).num_requests
                && final(self).last_requested_uri == old(self).last_requested_uri,
    {
        self.bytes_sent = conn.bytes_sent;
        self.bytes_requested = conn.bytes_requested;
        self.bytes_read = conn.bytes_read;
        match &conn.last_requested_uri {
            Some(uri) => {
                if self.num_requests < conn.num_requests {
                    self.last_requested_uri = crate::text::to_vec(uri.as_slice());
                    self.num_requests = conn.num_requests;
                    return true;
                }
                false
            },
            None => false,
        }
    }

    /// The share of promised bytes sent, in percent; 0 when nothing was
    /// promised.
    pub fn percent_sent(&self) -> (r: usize)
        requires
            self.bytes_sent <= self.bytes_requested,
        ensures
            self.bytes_requested == 0 ==> r == 0,
            self.bytes_requested > 0 ==> r == (100 * self.bytes_sent as int) / (self.bytes_requested as int),
            r <= 100,
    {
        if self.bytes_requested == 0 {
            return 0;
        }
        let sent = self.bytes_sent as u128;
        let req = self.bytes_requested as u128;
        let p = (100 * sent) / req;
        proof {
            let (si, ri) = (sent as int, req as int);
            assert((100 * si) / ri <= 100) by (nonlinear_arith)
                requires
                    si <= ri,
                    ri > 0,
                    si >= 0,
            ;
        }
        p as usize
    }
}

} // verus!
