//! The History Log: the shared, append-only sequence of every envelope the
//! hub has broadcast, in broadcast order.
//!
//! The log grows monotonically for the life of the process and is never
//! truncated. A newly registered session is replayed the whole sequence, in
//! order, before it sees live traffic; `replay_lines` hands the caller the
//! wire lines to write for that replay.

use vstd::prelude::*;
use crate::codec::{spec_encode, wire_line};
use crate::message::{ChatMessage, ChatMessageView};

verus! {

/// The append-only envelope log.
pub struct HistoryLog {
    entries: Vec<ChatMessage>,
}

impl HistoryLog {
    /// The envelopes broadcast so far, in broadcast order.
    pub closed spec fn log(self) -> Seq<ChatMessageView> {
        self.entries@.map_values(|m: ChatMessage| m@)
    }

    /// An empty log.
    pub fn new() -> (r: Self)
        ensures
            r.log() == Seq::<ChatMessageView>::empty(),
    {
        let r = HistoryLog { entries: Vec::new() };
        proof {
            assert(r.log() =~= Seq::<ChatMessageView>::empty());
        }
        r
    }

    /// How many envelopes have been broadcast.
    pub fn len(&self) -> (r: usize)
        ensures
            r == self.log().len(),
    {
        self.entries.len()
    }

    /// Appends one envelope: the log holds everything it held, then `msg`.
    pub fn append(&mut self, msg: ChatMessage)
        ensures
            final(self).log() == old(self).log().push(msg@),
    {
        let ghost pre = self.entries@;
        self.entries.push(msg);
        proof {
            assert(self.entries@ == pre.push(self.entries@[pre.len() as int]));
            assert(final(self).log() =~= old(self).log().push(msg@));
        }
    }

    /// The wire lines of the whole log, in order: what a joining session is
    /// sent before any live traffic.
    pub fn replay_lines(&self) -> (r: Vec<String>)
        ensures
            r@.len() == self.log().len(),
            forall|i: int|
                0 <= i < r@.len() ==> r@[i]@ == spec_encode(self.log()[i]) + seq!['\n'],
    {
        let n = self.entries.len();
        let mut out: Vec<String> = Vec::new();
        let mut i: usize = 0;
        while i < n
            invariant
                n == self.entries@.len(),
                i <= n,
                out@.len() == i,
                forall|q: int|
                    0 <= q < i ==> out@[q]@ == spec_encode(self.entries@[q]@) + seq!['\n'],
            decreases n - i,
        {
            let line = wire_line(&self.entries[i]);
            out.push(line);
            i = i + 1;
        }
        proof {
            assert forall|q: int| 0 <= q < n implies out@[q]@ == spec_encode(self.log()[q])
                + seq!['\n'] by {
                assert(self.log()[q] == self.entries@[q]@);
            }
        }
        out
    }
}

} // verus!
