//! Decisions of the loops that read and write local datagrams in batches.
use vstd::prelude::*;
use crate::addr::Endpoint;
use crate::packet::PacketClass;

verus! {

/// Milliseconds of rest after the socket failed.
pub const SOCKET_PAUSE_MS: u64 = 10;

/// Milliseconds of rest while no packet buffer is free.
pub const BUFFER_PAUSE_MS: u64 = 1;

/// How often the wanted local port is tried.
pub const BIND_ATTEMPTS: u32 = 5;

/// Milliseconds between two tries.
pub const BIND_PAUSE_MS: u64 = 1000;

/// Bytes that the local socket may buffer in either direction.
pub const LOCAL_SOCKET_BUFFER: usize = 640000;

/// What follows a try to bind the local socket.
#[derive(Clone, Copy, Debug, PartialEq, Eq, Structural)]
pub enum BindStep {
    /// The socket is used.
    Use,
    /// The port is tried again after this many milliseconds.
    Again(u64),
    /// Any free port is taken instead.
    AnyPort,
}

/// Decides after try number `attempt`, counted from one, to bind the wanted port.
pub fn bind_step(attempt: u32, bound: bool) -> (r: BindStep)
    ensures
        r == next_bind(attempt, bound),
{
    if bound {
        BindStep::Use
    } else if attempt < BIND_ATTEMPTS {
        BindStep::Again(BIND_PAUSE_MS)
    } else {
        BindStep::AnyPort
    }
}

/// What happened to a reader.
#[derive(Clone, Copy, Debug, PartialEq, Eq, Structural)]
pub enum UdpReadEvent {
    /// The socket could not be waited for.
    WaitFailed,
    /// No packet buffer was free.
    NoBuffers,
    /// A batch with room for this many datagrams received that many.
    Received { room: usize, count: usize },
    /// There was nothing to read after all.
    WouldBlock,
    /// Reading failed.
    Failed,
}

/// What a reader does next.
#[derive(Clone, Copy, Debug, PartialEq, Eq, Structural)]
pub enum UdpReadStep {
    /// Rests for this many milliseconds.
    Pause(u64),
    /// Dispatches this many datagrams.
    Dispatch(usize),
    /// Waits for the socket.
    Wait,
}

/// The size of the next batch: a batch that had all the room it may have, or found
/// nothing, adapts it.
pub open spec fn next_batch_limit(limit: usize, event: UdpReadEvent, adapted: usize) -> usize {
    match event {
        UdpReadEvent::Received { room, .. } => if room == limit {
            adapted
        } else {
            limit
        },
        UdpReadEvent::WouldBlock => adapted,
        _ => limit,
    }
}

/// What a reader does next, and the size of its next batch. `adapted` is the size that
/// suits what was received.
pub fn udp_read_step(limit: usize, event: UdpReadEvent, adapted: usize) -> (r: (
    UdpReadStep,
    usize,
))
    ensures
        r.0 == next_udp_read(event),
        r.1 == next_batch_limit(limit, event, adapted),
{
    match event {
        UdpReadEvent::WaitFailed => (UdpReadStep::Pause(SOCKET_PAUSE_MS), limit),
        UdpReadEvent::NoBuffers => (UdpReadStep::Pause(BUFFER_PAUSE_MS), limit),
        UdpReadEvent::Received { room, count } => (
            UdpReadStep::Dispatch(count),
            if room == limit {
                adapted
            } else {
                limit
            },
        ),
        UdpReadEvent::WouldBlock => (UdpReadStep::Wait, adapted),
        UdpReadEvent::Failed => (UdpReadStep::Pause(SOCKET_PAUSE_MS), limit),
    }
}

/// Notes where the last datagram came from; gives whether that changed.
pub fn note_client(client: &mut Option<Endpoint>, address: Endpoint) -> (changed: bool)
    ensures
        *final(client) == Some(address),
        changed == (*old(client) != Some(address)),
{
    let same = match *client {
        Some(previous) => previous == address,
        None => false,
    };
    *client = Some(address);
    !same
}

/// The size of the next outgoing batch: only bulk packets let it grow.
pub fn next_send_limit(class: PacketClass, adapted: usize, smallest: usize) -> (r: usize)
    ensures
        r == (if class == PacketClass::Bulk {
            adapted
        } else {
            smallest
        }),
{
    match class {
        PacketClass::Bulk => adapted,
        _ => smallest,
    }
}

/// How an attempt to send the rest of a batch went.
#[derive(Clone, Copy, Debug, PartialEq, Eq, Structural)]
pub enum SendEvent {
    /// The socket could not be waited for.
    WaitFailed,
    /// This many datagrams went out.
    Sent(usize),
    /// The socket was not ready after all.
    WouldBlock,
    /// Sending failed.
    Failed,
}

/// What a sender does next.
#[derive(Clone, Copy, Debug, PartialEq, Eq, Structural)]
pub enum SendStep {
    /// The batch is out.
    Done,
    /// Waits for the socket and goes on with the rest.
    Continue,
    /// Lets others run, then goes on.
    Yield,
    /// Drops the rest.
    Abandon,
}

/// A batch of datagrams on its way out.
#[derive(Debug)]
pub struct BatchSend {
    pub sizes: Vec<usize>,
    pub sent: usize,
}

/// Bytes of the datagrams from one position to another.
pub open spec fn bytes_between(sizes: Seq<usize>, from: int, to: int) -> nat
    decreases to - from,
{
    if from >= to {
        0
    } else {
        bytes_between(sizes, from, to - 1) + sizes[to - 1] as nat
    }
}

impl BatchSend {
    /// No more is out than there is, and all bytes can be counted.
    pub open spec fn wf(&self) -> bool {
        &&& self.sent <= self.sizes@.len()
        &&& bytes_between(self.sizes@, 0, self.sizes@.len() as int) <= u64::MAX
    }

    /// Decides after an attempt to send the rest; also gives the bytes that went out. An
    /// attempt sends at most the rest.
    pub fn step(&mut self, event: SendEvent) -> (r: (SendStep, u64))
        requires
            old(self).wf(),
            event matches SendEvent::Sent(n) ==> n <= old(self).sizes@.len() - old(self).sent,
        ensures
            final(self).wf(),
            final(self).sizes == old(self).sizes,
            final(self).sent == old(self).sent + (match event {
                SendEvent::Sent(n) => n as int,
                _ => 0,
            }),
            r.1 == bytes_between(
                old(self).sizes@,
                old(self).sent as int,
                final(self).sent as int,
            ),
            r.0 == next_send(*old(self), event),
    {
        match event {
            SendEvent::Sent(n) => {
                let len: usize = self.sizes.len();
                let from: usize = self.sent;
                let to: usize = from + n;
                let mut total: u64 = 0;
                let mut i: usize = from;
                while i < to
                    invariant
                        from <= i <= to <= self.sizes@.len(),
                        *self == *old(self),
                        old(self).wf(),
                        total == bytes_between(self.sizes@, from as int, i as int),
                    decreases to - i,
                {
                    proof {
                        lemma_bytes_within(self.sizes@, from as int, i + 1);
                    }
                    total = total + self.sizes[i] as u64;
                    i = i + 1;
                }
                self.sent = to;
                if to == len {
                    (SendStep::Done, total)
                } else if n == 0 {
                    (SendStep::Yield, total)
                } else {
                    (SendStep::Continue, total)
                }
            },
            SendEvent::WouldBlock => (SendStep::Continue, 0),
            SendEvent::WaitFailed => (SendStep::Abandon, 0),
            SendEvent::Failed => (SendStep::Abandon, 0),
        }
    }
}

proof fn lemma_bytes_split(sizes: Seq<usize>, from: int, mid: int, to: int)
    requires
        from <= mid <= to,
    ensures
        bytes_between(sizes, from, to) == bytes_between(sizes, from, mid) + bytes_between(
            sizes,
            mid,
            to,
        ),
    decreases to - mid,
{
    if mid < to {
        lemma_bytes_split(sizes, from, mid, to - 1);
    }
}

proof fn lemma_bytes_within(sizes: Seq<usize>, from: int, to: int)
    requires
        0 <= from <= to <= sizes.len(),
    ensures
        bytes_between(sizes, from, to) <= bytes_between(sizes, 0, sizes.len() as int),
{
    lemma_bytes_split(sizes, 0, from, sizes.len() as int);
    lemma_bytes_split(sizes, from, to, sizes.len() as int);
}

/// However a batch goes out in parts, the bytes that are reported add up to those that
/// went out.
pub proof fn law_parts_add_up(sizes: Seq<usize>, first: int, second: int)
    requires
        0 <= first <= second <= sizes.len(),
    ensures
        bytes_between(sizes, 0, first) + bytes_between(sizes, first, second) == bytes_between(
            sizes,
            0,
            second,
        ),
{
    lemma_bytes_split(sizes, 0, first, second);
}

/// The next batch is sized anew after a read that filled its room and after one that found
/// nothing; any other event leaves the limit alone.
pub proof fn law_batch_limit_adapts(limit: usize, room: usize, count: usize, adapted: usize)
    ensures
        next_batch_limit(limit, UdpReadEvent::WouldBlock, adapted) == adapted,
        next_batch_limit(limit, UdpReadEvent::Received { room: limit, count }, adapted) == adapted,
        room != limit ==> next_batch_limit(limit, UdpReadEvent::Received { room, count }, adapted)
            == limit,
        next_batch_limit(limit, UdpReadEvent::WaitFailed, adapted) == limit,
        next_batch_limit(limit, UdpReadEvent::NoBuffers, adapted) == limit,
        next_batch_limit(limit, UdpReadEvent::Failed, adapted) == limit,
{
}

/// One datagram counts its own size, and no datagrams count nothing.
pub proof fn law_one_datagram_counts_its_size(sizes: Seq<usize>, i: int)
    ensures
        bytes_between(sizes, i, i) == 0,
        bytes_between(sizes, i, i + 1) == sizes[i],
{
    reveal_with_fuel(bytes_between, 2);
}

/// What follows a try to bind the wanted port.
pub open spec fn next_bind(attempt: u32, bound: bool) -> BindStep {
    if bound {
        BindStep::Use
    } else if attempt < BIND_ATTEMPTS {
        BindStep::Again(BIND_PAUSE_MS)
    } else {
        BindStep::AnyPort
    }
}

/// The wanted port is tried five times, a second apart, before any other is taken.
pub proof fn law_wanted_port_is_tried_first(attempt: u32)
    ensures
        next_bind(attempt, true) is Use,
        attempt <= 4 ==> next_bind(attempt, false) == BindStep::Again(1000),
        attempt >= 5 ==> next_bind(attempt, false) is AnyPort,
{
}

/// What a reader does after an event.
pub open spec fn next_udp_read(event: UdpReadEvent) -> UdpReadStep {
    match event {
        UdpReadEvent::WaitFailed => UdpReadStep::Pause(SOCKET_PAUSE_MS),
        UdpReadEvent::NoBuffers => UdpReadStep::Pause(BUFFER_PAUSE_MS),
        UdpReadEvent::Received { count, .. } => UdpReadStep::Dispatch(count),
        UdpReadEvent::WouldBlock => UdpReadStep::Wait,
        UdpReadEvent::Failed => UdpReadStep::Pause(SOCKET_PAUSE_MS),
    }
}

/// Everything that was received is handed on; a socket at fault is left alone for ten
/// milliseconds, a lack of buffers for one.
pub proof fn law_received_datagrams_are_handed_on(room: usize, count: usize)
    ensures
        next_udp_read(UdpReadEvent::Received { room, count }) == UdpReadStep::Dispatch(count),
        next_udp_read(UdpReadEvent::WouldBlock) is Wait,
        next_udp_read(UdpReadEvent::WaitFailed) == UdpReadStep::Pause(10),
        next_udp_read(UdpReadEvent::Failed) == UdpReadStep::Pause(10),
        next_udp_read(UdpReadEvent::NoBuffers) == UdpReadStep::Pause(1),
{
}

/// What follows an attempt to send the rest of a batch.
pub open spec fn next_send(b: BatchSend, event: SendEvent) -> SendStep {
    match event {
        SendEvent::Sent(n) => if b.sent + n == b.sizes@.len() {
            SendStep::Done
        } else if n == 0 {
            SendStep::Yield
        } else {
            SendStep::Continue
        },
        SendEvent::WouldBlock => SendStep::Continue,
        _ => SendStep::Abandon,
    }
}

/// A batch is done exactly when its last datagram went out; while datagrams are left it goes
/// on, letting others go first where none went out, and a fault gives the rest up.
pub proof fn law_batches_are_sent_to_the_end(b: BatchSend, n: usize)
    requires
        b.wf(),
        n <= b.sizes@.len() - b.sent,
    ensures
        next_send(b, SendEvent::Sent(n)) is Done <==> b.sent + n == b.sizes@.len(),
        0 < n && b.sent + n < b.sizes@.len() ==> next_send(b, SendEvent::Sent(n)) is Continue,
        b.sent < b.sizes@.len() ==> next_send(b, SendEvent::Sent(0)) is Yield,
        next_send(b, SendEvent::WouldBlock) is Continue,
        next_send(b, SendEvent::WaitFailed) is Abandon,
        next_send(b, SendEvent::Failed) is Abandon,
{
}

} // verus!
