//! The decisions of the connection driver: which stream id comes next, what
//! a stream read yields, how received stream data is gathered and handed to
//! a stream, how the send loop proceeds, when the datagram sink has written
//! everything, and what to do with the idle timer. The driver itself (socket,
//! QUIC state, wakers) performs the actions these functions choose.
use vstd::prelude::*;

verus! {

/// The gap between consecutive stream ids handed out by `StreamIdAllocator`.
pub const STREAM_ID_STRIDE: u64 = 10;

/// Hands out stream ids 1, 11, 21, ... (modulo 2^64).
#[derive(Debug, Default)]
pub struct StreamIdAllocator {
    counter: u64,
}

impl View for StreamIdAllocator {
    type V = u64;

    /// The counter: the id handed out next is one more than it.
    closed spec fn view(&self) -> u64 {
        self.counter
    }
}

/// The counter after one allocation from counter `c`: `c` plus the stride,
/// wrapping around at 2^64.
pub open spec fn spec_next_counter(c: u64) -> u64 {
    ((c + STREAM_ID_STRIDE) % 0x1_0000_0000_0000_0000) as u64
}

/// The id that an allocation from counter `c` hands out: `c` plus one,
/// wrapping around at 2^64.
pub open spec fn spec_next_id(c: u64) -> u64 {
    ((c + 1) % 0x1_0000_0000_0000_0000) as u64
}

/// The counter after `k` allocations from counter `c`.
pub open spec fn spec_counter_after(c: u64, k: nat) -> u64
    decreases k,
{
    if k == 0 {
        c
    } else {
        spec_next_counter(spec_counter_after(c, (k - 1) as nat))
    }
}

/// The ids that `k` allocations from counter `c` hand out, in order.
pub open spec fn spec_allocated(c: u64, k: nat) -> Seq<u64>
    decreases k,
{
    if k == 0 {
        Seq::empty()
    } else {
        spec_allocated(c, (k - 1) as nat).push(spec_next_id(spec_counter_after(c, (k - 1) as nat)))
    }
}

impl StreamIdAllocator {
    /// A fresh allocator, whose first id is 1.
    pub fn new() -> (r: Self)
        ensures
            r@ == 0,
    {
        StreamIdAllocator { counter: 0 }
    }

    /// The next stream id: one more than the counter, which then moves on by
    /// the stride (both wrapping around at 2^64).
    pub fn allocate(&mut self) -> (id: u64)
        ensures
            id == spec_next_id(old(self)@),
            final(self)@ == spec_next_counter(old(self)@),
    {
        let previous = self.counter;
        self.counter = previous.wrapping_add(STREAM_ID_STRIDE);
        previous.wrapping_add(1)
    }
}

/// A fresh allocator hands out 1, 11, 21, ...: after `k` allocations, as
/// long as `10 k` stays below 2^64, the `j`-th id (counting from 0) is
/// `10 j + 1`, the counter is `10 k`, and no id was handed out twice.
pub proof fn lemma_allocations(k: nat)
    requires
        k * STREAM_ID_STRIDE < 0x1_0000_0000_0000_0000,
    ensures
        spec_counter_after(0, k) == k * STREAM_ID_STRIDE,
        spec_allocated(0, k).len() == k,
        forall|j: int| 0 <= j < k ==> #[trigger] spec_allocated(0, k)[j] == j * STREAM_ID_STRIDE + 1,
        forall|i: int, j: int|
            0 <= i < j < k ==> #[trigger] spec_allocated(0, k)[i] != #[trigger] spec_allocated(
                0,
                k,
            )[j],
    decreases k,
{
    if k > 0 {
        let k1 = (k - 1) as nat;
        lemma_allocations(k1);
        assert(spec_counter_after(0, k) == spec_next_counter(spec_counter_after(0, k1)));
        assert(spec_allocated(0, k) == spec_allocated(0, k1).push(
            spec_next_id(spec_counter_after(0, k1)),
        ));
        assert(spec_next_id((k1 * STREAM_ID_STRIDE) as u64) == k1 * STREAM_ID_STRIDE + 1);
        assert forall|j: int| 0 <= j < k implies #[trigger] spec_allocated(0, k)[j] == j
            * STREAM_ID_STRIDE + 1 by {
            if j < k1 {
                assert(spec_allocated(0, k)[j] == spec_allocated(0, k1)[j]);
            }
        }
        assert forall|i: int, j: int| 0 <= i < j < k implies #[trigger] spec_allocated(0, k)[i]
            != #[trigger] spec_allocated(0, k)[j] by {
            assert(spec_allocated(0, k)[i] == i * STREAM_ID_STRIDE + 1);
            assert(spec_allocated(0, k)[j] == j * STREAM_ID_STRIDE + 1);
        }
    }
}

/// Stream data received but not read yet, and whether the peer finished
/// the stream.
#[derive(Debug)]
pub struct StreamInbox {
    pub data: Vec<u8>,
    pub fin: bool,
}

/// What a read of a stream yields.
#[derive(Debug, PartialEq, Eq)]
pub enum ReadOutcome {
    /// All the data received so far.
    Data(Vec<u8>),
    /// No data, and the peer finished the stream.
    Finished,
    /// No data yet: the reader waits to be woken.
    Wait,
}

impl StreamInbox {
    /// An empty inbox of an unfinished stream.
    pub fn new() -> (r: Self)
        ensures
            r.data@ == Seq::<u8>::empty(),
            !r.fin,
    {
        StreamInbox { data: Vec::new(), fin: false }
    }

    /// Appends data gathered for the stream and takes over its fin flag.
    pub fn deliver(&mut self, gathered: Gathered)
        ensures
            final(self).data@ == old(self).data@ + gathered.data@,
            final(self).fin == gathered.fin,
    {
        let mut more = gathered.data;
        self.data.append(&mut more);
        self.fin = gathered.fin;
    }

    /// A read: takes all buffered data if there is any; otherwise reports
    /// the end of the stream when the peer finished it, or asks to wait.
    pub fn read(&mut self) -> (r: ReadOutcome)
        ensures
            old(self).data@.len() > 0 ==> (r matches ReadOutcome::Data(d) && d@ == old(
                self,
            ).data@),
            old(self).data@.len() == 0 && old(self).fin ==> r == ReadOutcome::Finished,
            old(self).data@.len() == 0 && !old(self).fin ==> r == ReadOutcome::Wait,
            final(self).data@ == Seq::<u8>::empty(),
            final(self).fin == old(self).fin,
    {
        if self.data.len() > 0 {
            let mut taken = Vec::new();
            std::mem::swap(&mut taken, &mut self.data);
            ReadOutcome::Data(taken)
        } else if self.fin {
            ReadOutcome::Finished
        } else {
            ReadOutcome::Wait
        }
    }
}

/// The data of one stream collected while draining what the connection
/// has for it, and the fin flag of the last piece.
#[derive(Debug)]
pub struct Gathered {
    pub data: Vec<u8>,
    pub fin: bool,
}

impl Gathered {
    /// Nothing collected yet.
    pub fn new() -> (r: Self)
        ensures
            r.data@ == Seq::<u8>::empty(),
            !r.fin,
    {
        Gathered { data: Vec::new(), fin: false }
    }

    /// Adds one piece read from the stream, with its fin flag.
    pub fn push(&mut self, chunk: &[u8], fin: bool)
        ensures
            final(self).data@ == old(self).data@ + chunk@,
            final(self).fin == fin,
    {
        let mut i: usize = 0;
        let ghost start = self.data@;
        while i < chunk.len()
            invariant
                i <= chunk@.len(),
                self.data@ == start + chunk@.take(i as int),
            decreases chunk@.len() - i,
        {
            self.data.push(chunk[i]);
            i = i + 1;
            assert(self.data@ =~= start + chunk@.take(i as int));
        }
        assert(chunk@.take(chunk@.len() as int) =~= chunk@);
        self.fin = fin;
    }
}

/// What the connection had to send.
#[derive(Debug, Clone, Copy, PartialEq, Eq)]
pub enum Produced {
    /// A datagram of this many bytes is waiting in the send buffer.
    Datagram(usize),
    /// Nothing more to send.
    Done,
    /// The connection failed.
    Failed,
}

/// What the send buffer already holds, before the connection is asked for
/// more: a datagram that an earlier round could not hand over is sent first,
/// whole; an empty buffer (`None`) means the connection is asked.
pub fn buffered_datagram(buffered_len: usize) -> (r: Option<Produced>)
    ensures
        buffered_len == 0 ==> r is None,
        buffered_len > 0 ==> r == Some(Produced::Datagram(buffered_len)),
{
    if buffered_len == 0 {
        None
    } else {
        Some(Produced::Datagram(buffered_len))
    }
}

/// The next step of the send loop.
#[derive(Debug, Clone, Copy, PartialEq, Eq)]
pub enum SendAction {
    /// Hand this many bytes of the send buffer to the sink, then ask the
    /// connection again.
    Transmit(usize),
    /// The sink is busy: flush what was handed over, then report pending.
    FlushThenPending,
    /// The sink is busy and nothing was handed over: report pending.
    Pending,
    /// Nothing more to send: flush what was handed over, then report ready.
    FlushThenReady,
    /// Nothing more to send and nothing was handed over: report ready.
    Ready,
    /// Report the connection's failure.
    Fail,
}

/// The state of one run of the send loop: whether a datagram has been
/// handed to the sink in this run.
#[derive(Debug)]
pub struct SendLoop {
    pub handed_over: bool,
}

/// One step of the send loop, from whether a datagram has been handed over
/// in this run: whether one has afterwards, and what to do.
pub open spec fn send_step(handed_over: bool, produced: Produced, sink_ready: bool) -> (
    bool,
    SendAction,
) {
    match produced {
        Produced::Datagram(n) => if sink_ready {
            (true, SendAction::Transmit(n))
        } else if handed_over {
            (true, SendAction::FlushThenPending)
        } else {
            (false, SendAction::Pending)
        },
        Produced::Done => if handed_over {
            (true, SendAction::FlushThenReady)
        } else {
            (false, SendAction::Ready)
        },
        Produced::Failed => (handed_over, SendAction::Fail),
    }
}

impl SendLoop {
    /// A run that has handed over nothing yet.
    pub fn new() -> (r: Self)
        ensures
            !r.handed_over,
    {
        SendLoop { handed_over: false }
    }

    /// Decides on what the connection produced, given whether the sink is
    /// ready for another datagram (only consulted when there is one).
    pub fn step(&mut self, produced: Produced, sink_ready: bool) -> (a: SendAction)
        ensures
            (final(self).handed_over, a) == send_step(old(self).handed_over, produced, sink_ready),
    {
        match produced {
            Produced::Datagram(n) => {
                if sink_ready {
                    self.handed_over = true;
                    SendAction::Transmit(n)
                } else if self.handed_over {
                    SendAction::FlushThenPending
                } else {
                    SendAction::Pending
                }
            },
            Produced::Done => {
                if self.handed_over {
                    SendAction::FlushThenReady
                } else {
                    SendAction::Ready
                }
            },
            Produced::Failed => SendAction::Fail,
        }
    }
}

/// Whether an action ends the run without flushing.
pub open spec fn ends_without_flush(a: SendAction) -> bool {
    a == SendAction::Pending || a == SendAction::Ready
}

/// Once a run of the send loop has handed a datagram to the sink, it stays
/// so, and it never ends (busy sink or nothing more to send) without
/// flushing; a run that has handed over nothing never flushes.
pub proof fn lemma_flush_after_hand_over(handed_over: bool, produced: Produced, sink_ready: bool)
    ensures
        handed_over ==> send_step(handed_over, produced, sink_ready).0,
        handed_over ==> !ends_without_flush(send_step(handed_over, produced, sink_ready).1),
        !handed_over ==> send_step(handed_over, produced, sink_ready).1
            != SendAction::FlushThenPending && send_step(handed_over, produced, sink_ready).1
            != SendAction::FlushThenReady,
{
}

/// A datagram the connection produced is handed to the sink whole whenever
/// the sink is ready, whether or not one was handed over before in the run;
/// nothing is handed over unless there is a datagram and the sink is ready;
/// a busy sink means the run waits (after a flush when something was handed
/// over); a failure of the connection is reported whatever else holds.
pub proof fn lemma_ready_sink_takes_datagram(handed_over: bool, produced: Produced, sink_ready: bool)
    ensures
        produced is Datagram && sink_ready ==> send_step(handed_over, produced, sink_ready) == (
            true,
            SendAction::Transmit(produced->0),
        ),
        send_step(handed_over, produced, sink_ready).1 is Transmit ==> produced == Produced::Datagram(
            send_step(handed_over, produced, sink_ready).1->0,
        ) && sink_ready,
        produced is Datagram && !sink_ready ==> send_step(handed_over, produced, sink_ready).1 == (
        if handed_over {
            SendAction::FlushThenPending
        } else {
            SendAction::Pending
        }),
        produced == Produced::Failed ==> send_step(handed_over, produced, sink_ready).1
            == SendAction::Fail,
{
}

/// Why a flush failed.
#[derive(Debug, Clone, Copy, PartialEq, Eq)]
pub enum FlushError {
    /// The socket took fewer bytes than the datagram held.
    ShortWrite,
}

/// Whether the datagram sink holds data not yet written to the socket.
#[derive(Debug)]
pub struct FlushState {
    pub flushed: bool,
}

impl FlushState {
    /// Nothing pending.
    pub fn new() -> (r: Self)
        ensures
            r.flushed,
    {
        FlushState { flushed: true }
    }

    /// A datagram was queued.
    pub fn queued(&mut self)
        ensures
            !final(self).flushed,
    {
        self.flushed = false;
    }

    /// The socket took `sent` bytes of the `pending` queued ones; the queue
    /// is dropped either way, and the flush failed when not all of it went.
    pub fn written(&mut self, sent: usize, pending: usize) -> (r: Result<(), FlushError>)
        ensures
            final(self).flushed,
            r is Ok <==> sent == pending,
            r is Err ==> r == Err::<(), FlushError>(FlushError::ShortWrite),
    {
        let wrote_all = sent == pending;
        self.flushed = true;
        if wrote_all {
            Ok(())
        } else {
            Err(FlushError::ShortWrite)
        }
    }
}

/// How polling the socket for datagrams ended.
#[derive(Debug, Clone, Copy, PartialEq, Eq)]
pub enum RecvPoll {
    /// The socket failed or reached its end.
    Failed,
    /// The receive loop finished without an error (it never does).
    Finished,
    /// Everything received so far was processed; the socket has no more.
    Pending,
}

/// What one round of the connection driver does after polling the socket.
#[derive(Debug, Clone, Copy, PartialEq, Eq)]
pub enum RoundStep {
    /// Report the socket's failure, then wait to be polled again.
    ReportRecvError,
    /// Update the timer, send what the connection has, then let the
    /// connection know if the timer fired; then wait to be polled again.
    TimersAndSend,
}

/// The step of a driver round that follows polling the socket: a failure
/// is reported; otherwise the round goes on to the timer and sending. The
/// receive loop only ends by failing or by running out of datagrams.
pub fn round_step(recv: RecvPoll) -> (r: RoundStep)
    requires
        recv != RecvPoll::Finished,
    ensures
        recv == RecvPoll::Failed ==> r == RoundStep::ReportRecvError,
        recv == RecvPoll::Pending ==> r == RoundStep::TimersAndSend,
{
    match recv {
        RecvPoll::Failed => RoundStep::ReportRecvError,
        _ => RoundStep::TimersAndSend,
    }
}

/// What to do with the connection's timer.
#[derive(Debug, Clone, Copy, PartialEq, Eq)]
pub enum TimerAction {
    /// Arm a new timer for the connection's timeout.
    Start,
    /// Move the existing timer to the connection's timeout.
    Reset,
    /// Drop the timer: the connection has no timeout.
    Clear,
}

/// The timer decision: with a timeout, arm a timer or move the one there
/// is; without one, drop it.
pub fn timer_action(has_timeout: bool, has_timer: bool) -> (r: TimerAction)
    ensures
        !has_timeout ==> r == TimerAction::Clear,
        has_timeout && !has_timer ==> r == TimerAction::Start,
        has_timeout && has_timer ==> r == TimerAction::Reset,
{
    if has_timeout {
        if !has_timer {
            TimerAction::Start
        } else {
            TimerAction::Reset
        }
    } else {
        TimerAction::Clear
    }
}

/// How much of a received datagram the connection has yet to process.
#[derive(Debug)]
pub struct DatagramCursor {
    pub remaining: usize,
}

impl DatagramCursor {
    /// A datagram of `len` bytes, none processed.
    pub fn new(len: usize) -> (r: Self)
        ensures
            r.remaining == len,
    {
        DatagramCursor { remaining: len }
    }

    /// Whether bytes are left to hand to the connection.
    pub fn has_more(&self) -> (r: bool)
        ensures
            r == (self.remaining > 0),
    {
        self.remaining > 0
    }

    /// The connection processed `read` of the remaining bytes.
    pub fn advance(&mut self, read: usize)
        requires
            read <= old(self).remaining,
        ensures
            final(self).remaining == old(self).remaining - read,
    {
        self.remaining = self.remaining - read;
    }
}

} // verus!
