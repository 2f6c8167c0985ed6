//! The output relay: one bounded multi-producer/single-consumer queue that
//! carries `(session id, byte chunk)` pairs from every session's reader
//! task to the single downstream consumer.
//!
//! Backpressure, not loss: a send against a full relay is refused with the
//! relay unchanged, so a producer blocks and retries rather than dropping
//! or reordering output. Per-session byte order is preserved end to end
//! (see [`lemma_per_session_order`]). A session's terminal "finished"
//! notification is delivered exactly once, which
//! [`OutputRelay::mark_finished`] enforces.

use vstd::prelude::*;

use crate::pty;
use crate::pty::PtyReader;

verus! {

/// What one step of a session's dedicated reader task decides, given the
/// outcome of one blocking read from the PTY.
pub enum ReaderAction {
    /// A non-empty chunk was read: push it to the relay.
    Forward(Vec<u8>),
    /// A zero-length read: the child closed its end; the task terminates.
    Stop,
    /// A read error: the task logs the message and terminates.
    StopLogging(String),
}

/// The reader task's decision rule: forward every non-empty chunk in read
/// order; terminate on end-of-stream; log and terminate on a read error.
pub fn reader_step(outcome: Result<Vec<u8>, String>) -> (a: ReaderAction)
    ensures
        outcome matches Ok(d) ==> (if d@.len() > 0 {
            a matches ReaderAction::Forward(f) && f == d
        } else {
            a is Stop
        }),
        outcome matches Err(m) ==> (a matches ReaderAction::StopLogging(l) && l == m),
{
    match outcome {
        Ok(d) => {
            if d.len() > 0 {
                ReaderAction::Forward(d)
            } else {
                ReaderAction::Stop
            }
        },
        Err(m) => ReaderAction::StopLogging(m),
    }
}

/// One blocking read from the session's PTY, classified by the reader
/// task's decision rule. A forwarded chunk is never empty and holds at
/// most one read's worth of bytes.
pub fn next_reader_action(r: &mut PtyReader) -> (a: ReaderAction)
    ensures
        a matches ReaderAction::Forward(d) ==> 0 < d@.len() <= 8192,
{
    reader_step(pty::read_pty_chunk(r))
}

/// The bounded relay queue, with the ghost history of everything it
/// accepted and everything it handed to the consumer.
pub struct OutputRelay {
    queue: Vec<(String, Vec<u8>)>,
    capacity: usize,
    finished: Vec<String>,
    accepted: Ghost<Seq<(Seq<char>, Seq<u8>)>>,
    handed_out: Ghost<Seq<(Seq<char>, Seq<u8>)>>,
}

impl OutputRelay {
    /// Every tagged chunk the relay ever accepted, in acceptance order.
    pub closed spec fn sent(self) -> Seq<(Seq<char>, Seq<u8>)> {
        self.accepted@
    }

    /// Every tagged chunk the consumer has received, in delivery order.
    pub closed spec fn delivered(self) -> Seq<(Seq<char>, Seq<u8>)> {
        self.handed_out@
    }

    /// The tagged chunks accepted but not yet delivered, oldest first.
    pub closed spec fn pending(self) -> Seq<(Seq<char>, Seq<u8>)> {
        self.queue@.map_values(|e: (String, Vec<u8>)| (e.0@, e.1@))
    }

    /// The capacity the relay was created with.
    pub closed spec fn cap(self) -> nat {
        self.capacity as nat
    }

    /// The session ids whose "finished" notification already went out.
    pub closed spec fn finished_ids(self) -> Seq<Seq<char>> {
        self.finished@.map_values(|s: String| s@)
    }

    /// Well-formed: the capacity is positive and bounds the backlog, what
    /// was delivered followed by what is pending is exactly what was
    /// accepted, and no session finished twice.
    pub closed spec fn wf(self) -> bool {
        &&& self.capacity >= 1
        &&& self.pending().len() <= self.cap()
        &&& self.delivered() + self.pending() == self.sent()
        &&& forall|i: int, j: int|
            0 <= i < j < self.finished_ids().len() ==> self.finished_ids()[i]
                != self.finished_ids()[j]
    }

    /// An empty relay with the given positive capacity.
    pub fn new(capacity: usize) -> (r: Self)
        requires
            capacity >= 1,
        ensures
            r.wf(),
            r.cap() == capacity,
            r.sent() == Seq::<(Seq<char>, Seq<u8>)>::empty(),
            r.delivered() == Seq::<(Seq<char>, Seq<u8>)>::empty(),
            r.finished_ids() == Seq::<Seq<char>>::empty(),
    {
        let r = OutputRelay {
            queue: Vec::new(),
            capacity,
            finished: Vec::new(),
            accepted: Ghost(Seq::empty()),
            handed_out: Ghost(Seq::empty()),
        };
        proof {
            assert(r.pending() =~= Seq::<(Seq<char>, Seq<u8>)>::empty());
            assert(r.finished_ids() =~= Seq::<Seq<char>>::empty());
            assert(r.delivered() + r.pending() =~= r.sent());
        }
        r
    }

    /// Offers one tagged chunk. A full relay refuses it and is left
    /// exactly as it was — the producer must block and try again, never
    /// drop or reorder; otherwise the chunk is accepted at the back of the
    /// queue.
    pub fn try_send(&mut self, id: &str, data: Vec<u8>) -> (accepted: bool)
        requires
            (*old(self)).wf(),
        ensures
            (*final(self)).wf(),
            (*final(self)).cap() == (*old(self)).cap(),
            (*final(self)).finished_ids() == (*old(self)).finished_ids(),
            (*final(self)).delivered() == (*old(self)).delivered(),
            accepted <==> (*old(self)).pending().len() < (*old(self)).cap(),
            accepted ==> (*final(self)).sent() == (*old(self)).sent().push((id@, data@)),
            !accepted ==> *final(self) == *old(self),
    {
        if self.queue.len() >= self.capacity {
            return false;
        }
        let entry = (id.to_owned(), data);
        let ghost tagged = (entry.0@, entry.1@);
        self.queue.push(entry);
        self.accepted = Ghost(self.accepted@.push(tagged));
        proof {
            assert(self.pending() =~= (*old(self)).pending().push(tagged));
            assert(self.delivered() + self.pending() =~= self.sent());
            assert(self.finished_ids() =~= (*old(self)).finished_ids());
        }
        true
    }

    /// Hands the oldest pending chunk to the consumer, or nothing when the
    /// relay is idle.
    pub fn recv(&mut self) -> (r: Option<(String, Vec<u8>)>)
        requires
            (*old(self)).wf(),
        ensures
            (*final(self)).wf(),
            (*final(self)).cap() == (*old(self)).cap(),
            (*final(self)).finished_ids() == (*old(self)).finished_ids(),
            (*final(self)).sent() == (*old(self)).sent(),
            r is None <==> (*old(self)).pending().len() == 0,
            r is None ==> *final(self) == *old(self),
            r matches Some(c) ==> ({
                &&& (c.0@, c.1@) == (*old(self)).pending()[0]
                &&& (*final(self)).pending() == (*old(self)).pending().drop_first()
                &&& (*final(self)).delivered() == (*old(self)).delivered().push((c.0@, c.1@))
            }),
    {
        if self.queue.len() == 0 {
            return None;
        }
        let entry = self.queue.remove(0);
        let ghost tagged = (entry.0@, entry.1@);
        self.handed_out = Ghost(self.handed_out@.push(tagged));
        proof {
            assert(self.pending() =~= (*old(self)).pending().drop_first());
            assert(tagged == (*old(self)).pending()[0]);
            assert(self.delivered() + self.pending() =~= self.sent());
            assert(self.finished_ids() =~= (*old(self)).finished_ids());
        }
        Some(entry)
    }

    /// Records that this session's terminal "finished" notification goes
    /// out now. True exactly on the first call for the id: the caller
    /// publishes the notification only then, so it is published exactly
    /// once per session.
    pub fn mark_finished(&mut self, id: &str) -> (first: bool)
        requires
            (*old(self)).wf(),
        ensures
            (*final(self)).wf(),
            (*final(self)).cap() == (*old(self)).cap(),
            (*final(self)).sent() == (*old(self)).sent(),
            (*final(self)).delivered() == (*old(self)).delivered(),
            (*final(self)).pending() == (*old(self)).pending(),
            first <==> !(*old(self)).finished_ids().contains(id@),
            first ==> (*final(self)).finished_ids() == (*old(self)).finished_ids().push(id@),
            !first ==> *final(self) == *old(self),
    {
        let n = self.finished.len();
        let mut i: usize = 0;
        while i < n
            invariant
                n == self.finished@.len(),
                i <= n,
                forall|j: int| 0 <= j < i ==> self.finished_ids()[j] != id@,
                (*old(self)) == *self,
                self.wf(),
            decreases n - i,
        {
            if crate::strutil::str_eq(self.finished[i].as_str(), id) {
                assert((*old(self)).finished_ids()[i as int] == id@);
                return false;
            }
            i = i + 1;
        }
        self.finished.push(id.to_owned());
        proof {
            assert((*final(self)).finished_ids() =~= (*old(self)).finished_ids().push(id@));
        }
        true
    }
}

/// Holds of a tagged chunk exactly when it belongs to this session.
pub open spec fn is_session(id: Seq<char>) -> spec_fn((Seq<char>, Seq<u8>)) -> bool {
    |p: (Seq<char>, Seq<u8>)| p.0 == id
}

/// The bytes of a tagged chunk.
pub open spec fn chunk_bytes() -> spec_fn((Seq<char>, Seq<u8>)) -> Seq<u8> {
    |p: (Seq<char>, Seq<u8>)| p.1
}

/// The byte chunks of one session within a tagged stream, in stream
/// order.
pub open spec fn session_chunks(stream: Seq<(Seq<char>, Seq<u8>)>, id: Seq<char>) -> Seq<
    Seq<u8>,
> {
    stream.filter(is_session(id)).map_values(chunk_bytes())
}

/// What the consumer has received is a prefix of what the producers sent:
/// the relay neither reorders, duplicates nor invents chunks.
pub proof fn lemma_delivered_prefix_of_sent(r: OutputRelay)
    requires
        r.wf(),
    ensures
        r.delivered().is_prefix_of(r.sent()),
{
    assert(r.delivered() =~= r.sent().subrange(0, r.delivered().len() as int));
}

/// For every session, the chunks the consumer has observed are exactly
/// the first chunks that session's reader produced, in production order:
/// per-session output order is preserved end to end, with no loss in the
/// middle, no duplication and no reordering.
pub proof fn lemma_per_session_order(r: OutputRelay, id: Seq<char>)
    requires
        r.wf(),
    ensures
        session_chunks(r.delivered(), id).is_prefix_of(session_chunks(r.sent(), id)),
{
    let pred = is_session(id);
    let project = chunk_bytes();
    assert(r.sent() == r.delivered() + r.pending());
    Seq::filter_distributes_over_add(r.delivered(), r.pending(), pred);
    assert(r.sent().filter(pred) == r.delivered().filter(pred) + r.pending().filter(pred));
    assert(session_chunks(r.sent(), id) =~= session_chunks(r.delivered(), id) + r.pending()
        .filter(pred).map_values(project));
    assert(session_chunks(r.delivered(), id) =~= session_chunks(r.sent(), id).subrange(
        0,
        session_chunks(r.delivered(), id).len() as int,
    ));
}

} // verus!
