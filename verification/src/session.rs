//! The decisions of a pipe session: how far a request frame has been read and what to read
//! next, and which idle client to drop when every session is taken.
use vstd::prelude::*;

use crate::protocol::{frame_len, spec_frame_len, HEADER_LEN, MAX_FRAME_LEN};

verus! {

/// How many pipe sessions serve clients at once.
pub const MAX_SESSIONS: usize = 8;

/// How many requests one session serves per wake before it yields to the others.
pub const MAX_REQS_PER_WAKE: u32 = 8;

/// Which part of a frame a session is reading.
#[derive(Debug, Clone, Copy, PartialEq, Eq, Structural)]
pub enum ReadStage {
    Header,
    Body,
}

/// How much of a request frame a session holds: `got` bytes of the `want` that the current
/// stage needs.
pub struct FrameReader {
    pub stage: ReadStage,
    pub want: usize,
    pub got: usize,
}

/// What a session does next with its buffer.
#[derive(Debug, Clone, Copy, PartialEq, Eq, Structural)]
pub enum ReadStep {
    /// Read up to `count` more bytes into the buffer at `offset`.
    Read { offset: usize, count: usize },
    /// The header was accepted; the whole frame is `want` bytes.
    BodyNext,
    /// The header is malformed: drop the connection.
    Malformed,
    /// The buffer holds a whole frame of this many bytes.
    Complete(usize),
}

impl FrameReader {
    /// The reader's invariant: a header stage wants the header, a body stage a whole frame
    /// of at most `MAX_FRAME_LEN` bytes, and no more than wanted was read.
    pub open spec fn wf(&self) -> bool {
        &&& self.got <= self.want
        &&& self.stage == ReadStage::Header ==> self.want == HEADER_LEN
        &&& self.stage == ReadStage::Body ==> HEADER_LEN <= self.want <= MAX_FRAME_LEN
    }

    /// Waiting for a header, nothing read.
    pub fn new() -> (r: FrameReader)
        ensures
            r.wf(),
            r.stage == ReadStage::Header,
            r.want == HEADER_LEN,
            r.got == 0,
    {
        FrameReader { stage: ReadStage::Header, want: HEADER_LEN, got: 0 }
    }

    /// Back to waiting for a header, after a request was served or the client left.
    pub fn reset(&mut self)
        ensures
            final(self).wf(),
            final(self).stage == ReadStage::Header,
            final(self).want == HEADER_LEN,
            final(self).got == 0,
    {
        self.stage = ReadStage::Header;
        self.want = HEADER_LEN;
        self.got = 0;
    }

    /// `n` more bytes arrived.
    pub fn received(&mut self, n: usize)
        requires
            old(self).wf(),
            old(self).got + n <= old(self).want,
        ensures
            final(self).wf(),
            final(self).got == old(self).got + n,
            final(self).stage == old(self).stage,
            final(self).want == old(self).want,
    {
        self.got = self.got + n;
    }

    /// The next step for a buffer whose first `got` bytes are `buf`: read the rest of the
    /// stage, check a complete header (moving to the body), or hand out a complete frame.
    pub fn advance(&mut self, buf: &[u8]) -> (step: ReadStep)
        requires
            old(self).wf(),
            buf@.len() >= old(self).got,
        ensures
            final(self).wf(),
            final(self).got == old(self).got,
            match step {
                ReadStep::Read { offset, count } => {
                    &&& old(self).got < old(self).want
                    &&& offset == old(self).got
                    &&& count == old(self).want - old(self).got
                    &&& *final(self) == *old(self)
                },
                ReadStep::BodyNext => {
                    &&& old(self).got == old(self).want
                    &&& old(self).stage == ReadStage::Header
                    &&& spec_frame_len(buf@) == Some(final(self).want as int)
                    &&& final(self).stage == ReadStage::Body
                },
                ReadStep::Malformed => {
                    &&& old(self).got == old(self).want
                    &&& old(self).stage == ReadStage::Header
                    &&& spec_frame_len(buf@) is None
                    &&& *final(self) == *old(self)
                },
                ReadStep::Complete(n) => {
                    &&& old(self).got == old(self).want
                    &&& old(self).stage == ReadStage::Body
                    &&& n == old(self).want
                    &&& *final(self) == *old(self)
                },
            },
    {
        if self.got < self.want {
            return ReadStep::Read { offset: self.got, count: self.want - self.got };
        }
        match self.stage {
            ReadStage::Header => match frame_len(buf) {
                Some(n) => {
                    self.stage = ReadStage::Body;
                    self.want = n;
                    ReadStep::BodyNext
                },
                None => ReadStep::Malformed,
            },
            ReadStage::Body => ReadStep::Complete(self.want),
        }
    }
}

/// The overlapped operation a session has outstanding, or its last completion.
#[derive(Debug, Clone, Copy, PartialEq, Eq, Structural)]
pub enum SessionOp {
    /// Waiting for a client to connect.
    Connect,
    /// A read is in flight.
    ReadPending,
    /// A read completed at once with this many bytes.
    ReadBuffered(usize),
    /// A write is in flight.
    WritePending,
    /// Nothing outstanding.
    Idle,
}

/// Why a session drops its client.
#[derive(Debug, Clone, Copy, PartialEq, Eq, Structural)]
pub enum DisconnectReason {
    LruEvict,
    ClientClosed,
    Malformed,
    HandleError,
    WriteFailed,
    IdleDefensive,
}

/// What a session does with the operation whose event fired.
#[derive(Debug, Clone, Copy, PartialEq, Eq, Structural)]
pub enum OpOutcome {
    /// A client connected: mark the session connected and go on.
    Connected,
    /// This many bytes arrived: count them and go on.
    Read(usize),
    /// The response went out: drop it and go on.
    Wrote,
    /// The operation is still running: wait for the next event.
    Park,
    /// Drop the client.
    Disconnect(DisconnectReason),
}

/// Which completion result an operation needs: `Some(None)` for a read, `Some(Some(n))`
/// for a write that must move all `n` bytes, `None` for the others.
pub fn pending_check(op: SessionOp, write_len: usize) -> (r: Option<Option<usize>>)
    ensures
        r == match op {
            SessionOp::ReadPending => Some(None::<usize>),
            SessionOp::WritePending => Some(Some(write_len)),
            _ => None::<Option<usize>>,
        },
{
    match op {
        SessionOp::ReadPending => Some(None),
        SessionOp::WritePending => Some(Some(write_len)),
        _ => None,
    }
}

/// The result of an overlapped operation: the bytes moved, or 0 where it failed or a write
/// moved fewer than `expected` bytes; `None` while it is still running.
pub open spec fn spec_completion(ok: bool, bytes: u32, expected: Option<usize>, incomplete: bool) -> Option<u32> {
    if ok {
        match expected {
            Some(len) => if bytes as int != len as int {
                Some(0u32)
            } else {
                Some(bytes)
            },
            None => Some(bytes),
        }
    } else if incomplete {
        None
    } else {
        Some(0u32)
    }
}

/// The result of an overlapped operation, as `spec_completion` states.
pub fn completion_result(ok: bool, bytes: u32, expected: Option<usize>, incomplete: bool) -> (r: Option<u32>)
    ensures
        r == spec_completion(ok, bytes, expected, incomplete),
{
    if ok {
        match expected {
            Some(len) => {
                if bytes as usize != len {
                    return Some(0);
                }
                Some(bytes)
            },
            None => Some(bytes),
        }
    } else if incomplete {
        None
    } else {
        Some(0)
    }
}

/// What to do with the operation `op` whose event fired, given the completion result of a
/// read or write: a zero result means the client left, no result that it is still running;
/// an idle session should not have fired and is dropped.
pub open spec fn spec_consume(op: SessionOp, result: Option<u32>) -> OpOutcome {
    match op {
        SessionOp::Connect => OpOutcome::Connected,
        SessionOp::ReadPending => match result {
            Some(0u32) => OpOutcome::Disconnect(DisconnectReason::ClientClosed),
            Some(n) => OpOutcome::Read(n as usize),
            None => OpOutcome::Park,
        },
        SessionOp::ReadBuffered(n) => OpOutcome::Read(n),
        SessionOp::WritePending => match result {
            Some(0u32) => OpOutcome::Disconnect(DisconnectReason::ClientClosed),
            Some(_) => OpOutcome::Wrote,
            None => OpOutcome::Park,
        },
        SessionOp::Idle => OpOutcome::Disconnect(DisconnectReason::IdleDefensive),
    }
}

/// What to do with a fired operation, as `spec_consume` states.
pub fn consume_op(op: SessionOp, result: Option<u32>) -> (r: OpOutcome)
    ensures
        r == spec_consume(op, result),
{
    match op {
        SessionOp::Connect => OpOutcome::Connected,
        SessionOp::ReadPending => match result {
            Some(0u32) => OpOutcome::Disconnect(DisconnectReason::ClientClosed),
            Some(n) => OpOutcome::Read(n as usize),
            None => OpOutcome::Park,
        },
        SessionOp::ReadBuffered(n) => OpOutcome::Read(n),
        SessionOp::WritePending => match result {
            Some(0u32) => OpOutcome::Disconnect(DisconnectReason::ClientClosed),
            Some(_) => OpOutcome::Wrote,
            None => OpOutcome::Park,
        },
        SessionOp::Idle => OpOutcome::Disconnect(DisconnectReason::IdleDefensive),
    }
}

/// How the next read after a served request goes on: after `MAX_REQS_PER_WAKE` requests a
/// read that completed at once is deferred to the next wake so that other sessions get
/// their turn.
pub fn yields_after(served: u32) -> (r: bool)
    ensures
        r == (served >= MAX_REQS_PER_WAKE),
{
    served >= MAX_REQS_PER_WAKE
}

/// Session `i` is connected and was active least recently, the first such.
pub open spec fn is_lru_session(connected: Seq<bool>, last_activity: Seq<u64>, i: int) -> bool {
    &&& 0 <= i < connected.len()
    &&& connected[i]
    &&& forall|j: int|
        0 <= j < connected.len() && connected[j] ==> last_activity[i] <= #[trigger] last_activity[j]
    &&& forall|j: int| 0 <= j < i && connected[j] ==> last_activity[i] < #[trigger] last_activity[j]
}

/// The connected session used least recently, when every session is connected: the first
/// of the least recently active ones.
pub open spec fn spec_session_to_evict(connected: Seq<bool>, last_activity: Seq<u64>) -> Option<int> {
    if connected.filter(|c: bool| c).len() >= MAX_SESSIONS {
        Some(choose|i: int| #[trigger] is_lru_session(connected, last_activity, i))
    } else {
        None
    }
}

/// Counting the connected sessions among a prefix.
proof fn lemma_count_connected(s: Seq<bool>, k: int)
    requires
        0 <= k < s.len(),
    ensures
        s.take(k + 1).filter(|c: bool| c).len() == s.take(k).filter(|c: bool| c).len() + if s[k] {
            1int
        } else {
            0int
        },
{
    reveal(Seq::filter);
    assert(s.take(k + 1).drop_last() =~= s.take(k));
}

/// Which session to drop so that a new client can connect, as `spec_session_to_evict`
/// states; `None` while a session is free.
pub fn session_to_evict(connected: &Vec<bool>, last_activity: &Vec<u64>) -> (r: Option<usize>)
    requires
        connected@.len() == last_activity@.len(),
    ensures
        match r {
            Some(i) => spec_session_to_evict(connected@, last_activity@) == Some(i as int),
            None => spec_session_to_evict(connected@, last_activity@) is None,
        },
{
    let n = connected.len();
    let mut count: usize = 0;
    let mut best: Option<usize> = None;
    let mut k: usize = 0;
    assert(connected@.take(0).filter(|c: bool| c) =~= Seq::<bool>::empty()) by {
        reveal(Seq::filter);
    }
    while k < n
        invariant
            k <= n,
            n == connected@.len(),
            n == last_activity@.len(),
            count == connected@.take(k as int).filter(|c: bool| c).len(),
            count <= k,
            match best {
                Some(b) => {
                    &&& b < k
                    &&& connected@[b as int]
                    &&& forall|j: int| 0 <= j < k && connected@[j] ==> last_activity@[b as int] <= #[trigger] last_activity@[j]
                    &&& forall|j: int| 0 <= j < b && connected@[j] ==> last_activity@[b as int] < #[trigger] last_activity@[j]
                },
                None => forall|j: int| 0 <= j < k ==> !#[trigger] connected@[j],
            },
        decreases n - k,
    {
        proof {
            lemma_count_connected(connected@, k as int);
        }
        if connected[k] {
            count = count + 1;
            match best {
                Some(b) => {
                    if last_activity[k] < last_activity[b] {
                        best = Some(k);
                    }
                },
                None => {
                    best = Some(k);
                },
            }
        }
        k = k + 1;
    }
    assert(connected@.take(n as int) =~= connected@);
    if count < MAX_SESSIONS {
        return None;
    }
    match best {
        Some(b) => {
            proof {
                assert(is_lru_session(connected@, last_activity@, b as int));
                let c = choose|i: int| #[trigger] is_lru_session(connected@, last_activity@, i);
                assert(is_lru_session(connected@, last_activity@, c));
                if c < b {
                    assert(last_activity@[b as int] < last_activity@[c]);
                    assert(last_activity@[c] <= last_activity@[b as int]);
                } else if c > b {
                    assert(last_activity@[c] < last_activity@[b as int]);
                    assert(last_activity@[b as int] <= last_activity@[c]);
                }
            }
            Some(b)
        },
        None => {
            assert(count == 0) by {
                reveal(Seq::filter);
                assert forall|j: int| 0 <= j < n implies !#[trigger] connected@[j] by {}
                lemma_none_connected(connected@);
            }
            None
        },
    }
}

/// No connected session counts none.
proof fn lemma_none_connected(s: Seq<bool>)
    requires
        forall|j: int| 0 <= j < s.len() ==> !#[trigger] s[j],
    ensures
        s.filter(|c: bool| c).len() == 0,
    decreases s.len(),
{
    reveal(Seq::filter);
    if s.len() > 0 {
        lemma_none_connected(s.drop_last());
    }
}

} // verus!
