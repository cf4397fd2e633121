//! Reading from and writing to the tunnel device: what an outcome calls for.
use vstd::prelude::*;

verus! {

/// System error numbers of Linux.
pub const EIO: i32 = 5;

pub const EBADF: i32 = 9;

pub const ENOMEM: i32 = 12;

pub const ENODEV: i32 = 19;

pub const ENOBUFS: i32 = 105;

/// Packets that are read in a row before other work gets a turn.
pub const READ_BURST: usize = 32;

/// Packets that are written in a row before other work gets a turn.
pub const WRITE_BURST: usize = 64;

/// A failed operation on the device: the class of the error as far as it matters, and
/// the system's number for it.
#[derive(Clone, Copy, Debug, PartialEq, Eq, Structural)]
pub struct TunError {
    pub interrupted: bool,
    pub would_block: bool,
    pub code: Option<i32>,
}

/// The device is gone.
pub open spec fn closed_error(e: TunError) -> bool {
    e.code == Some(EIO) || e.code == Some(EBADF) || e.code == Some(ENODEV)
}

/// The system is short of buffers.
pub open spec fn starved_error(e: TunError) -> bool {
    e.code == Some(ENOBUFS) || e.code == Some(ENOMEM)
}

/// The operation may succeed if it is tried again.
pub open spec fn retryable_error(e: TunError) -> bool {
    e.interrupted || e.would_block || starved_error(e)
}

/// Whether the device is gone.
pub fn is_closed_tun_error(e: &TunError) -> (r: bool)
    ensures
        r == closed_error(*e),
{
    match e.code {
        Some(code) => code == EIO || code == EBADF || code == ENODEV,
        None => false,
    }
}

fn is_starved_tun_error(e: &TunError) -> (r: bool)
    ensures
        r == starved_error(*e),
{
    match e.code {
        Some(code) => code == ENOBUFS || code == ENOMEM,
        None => false,
    }
}

/// Whether the operation may succeed if it is tried again.
pub fn is_retryable_tun_error(e: &TunError) -> (r: bool)
    ensures
        r == retryable_error(*e),
{
    e.interrupted || e.would_block || is_starved_tun_error(e)
}

/// How a read or a write went.
#[derive(Clone, Copy, Debug, PartialEq, Eq, Structural)]
pub enum TunOutcome {
    /// This many bytes were moved.
    Moved(usize),
    /// The operation failed.
    Failed(TunError),
    /// The device was not ready after all.
    NotReady,
}

/// What a reader does next.
#[derive(Clone, Copy, Debug, PartialEq, Eq, Structural)]
pub enum ReadStep {
    /// Dispatches a packet of this many bytes.
    Dispatch(usize),
    /// Waits until the device is readable again.
    Wait,
    /// Gives up the device; a new one is opened.
    Reopen,
    /// Gives up the device because of an error that is reported.
    Fail,
}

/// What a reader does after a read.
pub fn read_step(outcome: TunOutcome) -> (r: ReadStep)
    ensures
        r == next_read(outcome),
{
    match outcome {
        TunOutcome::Moved(n) => {
            if n == 0 {
                ReadStep::Reopen
            } else {
                ReadStep::Dispatch(n)
            }
        },
        TunOutcome::NotReady => ReadStep::Wait,
        TunOutcome::Failed(e) => {
            if is_retryable_tun_error(&e) {
                ReadStep::Wait
            } else if is_closed_tun_error(&e) {
                ReadStep::Reopen
            } else {
                ReadStep::Fail
            }
        },
    }
}

/// What a writer does next.
#[derive(Clone, Copy, Debug, PartialEq, Eq, Structural)]
pub enum WriteStep {
    /// The packet is written.
    Done,
    /// Goes on with the rest.
    Continue,
    /// Waits a millisecond for buffers, then goes on.
    Pause,
    /// Lets others run, then goes on.
    Yield,
    /// Gives up the device; a new one is opened.
    Reopen,
    /// Gives up the device because of an error that is reported.
    Fail,
}

/// A packet on its way to the device.
#[derive(Clone, Copy, Debug, PartialEq, Eq, Structural)]
pub struct PacketWrite {
    pub written: usize,
    pub len: usize,
}

impl PacketWrite {
    /// No more is written than there is.
    pub open spec fn wf(self) -> bool {
        self.written <= self.len
    }

    /// A packet of which nothing is written yet.
    pub fn new(len: usize) -> (r: Self)
        ensures
            r.wf(),
            r.written == 0,
            r.len == len,
    {
        PacketWrite { written: 0, len }
    }

    /// Decides after a write of the rest; a write moves at most the rest.
    pub fn step(&mut self, outcome: TunOutcome) -> (r: WriteStep)
        requires
            old(self).wf(),
            outcome matches TunOutcome::Moved(n) ==> n <= old(self).len - old(self).written,
        ensures
            final(self).wf(),
            final(self).len == old(self).len,
            final(self).written == old(self).written + (match outcome {
                TunOutcome::Moved(n) => n as int,
                _ => 0,
            }),
            r == next_write(*old(self), outcome),
    {
        match outcome {
            TunOutcome::Moved(n) => {
                if n == 0 {
                    return WriteStep::Fail;
                }
                self.written = self.written + n;
                if self.written == self.len {
                    WriteStep::Done
                } else {
                    WriteStep::Continue
                }
            },
            TunOutcome::NotReady => WriteStep::Continue,
            TunOutcome::Failed(e) => {
                if is_retryable_tun_error(&e) {
                    if is_starved_tun_error(&e) {
                        WriteStep::Pause
                    } else {
                        WriteStep::Yield
                    }
                } else if is_closed_tun_error(&e) {
                    WriteStep::Reopen
                } else {
                    WriteStep::Fail
                }
            },
        }
    }
}

/// What an error of the tunnel device means: input and output error, bad descriptor and no
/// such device end it; too little memory, an interruption and an empty device pass. No
/// error means both.
pub proof fn law_tunnel_errors_are_told_apart(e: TunError)
    ensures
        closed_error(e) <==> e.code == Some(5i32) || e.code == Some(9i32) || e.code == Some(19i32),
        starved_error(e) <==> e.code == Some(105i32) || e.code == Some(12i32),
        !(closed_error(e) && starved_error(e)),
        e.interrupted ==> retryable_error(e),
        e.would_block ==> retryable_error(e),
        starved_error(e) ==> retryable_error(e),
        retryable_error(e) ==> e.interrupted || e.would_block || starved_error(e),
{
}

/// What follows a read.
pub open spec fn next_read(outcome: TunOutcome) -> ReadStep {
    match outcome {
        TunOutcome::Moved(n) => if n == 0 {
            ReadStep::Reopen
        } else {
            ReadStep::Dispatch(n)
        },
        TunOutcome::NotReady => ReadStep::Wait,
        TunOutcome::Failed(e) => if retryable_error(e) {
            ReadStep::Wait
        } else if closed_error(e) {
            ReadStep::Reopen
        } else {
            ReadStep::Fail
        },
    }
}

/// What was read is handed on, all of it; the end of the device and a device that is gone
/// open it anew; what passes is waited for; anything else is a failure.
pub proof fn law_reads_lead_on(n: usize, e: TunError)
    ensures
        n > 0 ==> next_read(TunOutcome::Moved(n)) == ReadStep::Dispatch(n),
        next_read(TunOutcome::Moved(0)) is Reopen,
        next_read(TunOutcome::NotReady) is Wait,
        e.interrupted || e.would_block ==> next_read(TunOutcome::Failed(e)) is Wait,
        e.code == Some(105i32) || e.code == Some(12i32) ==> next_read(TunOutcome::Failed(e)) is Wait,
        !e.interrupted && !e.would_block && (e.code == Some(5i32) || e.code == Some(9i32) || e.code
            == Some(19i32)) ==> next_read(TunOutcome::Failed(e)) is Reopen,
        !e.interrupted && !e.would_block && e.code is None ==> next_read(TunOutcome::Failed(e))
            is Fail,
{
}

/// What follows a write of the rest of a packet.
pub open spec fn next_write(w: PacketWrite, outcome: TunOutcome) -> WriteStep {
    match outcome {
        TunOutcome::Moved(n) => if n == 0 {
            WriteStep::Fail
        } else if w.written + n == w.len {
            WriteStep::Done
        } else {
            WriteStep::Continue
        },
        TunOutcome::NotReady => WriteStep::Continue,
        TunOutcome::Failed(e) => if retryable_error(e) {
            if starved_error(e) {
                WriteStep::Pause
            } else {
                WriteStep::Yield
            }
        } else if closed_error(e) {
            WriteStep::Reopen
        } else {
            WriteStep::Fail
        },
    }
}

/// A packet is done exactly when its last byte was written; a write that moves nothing is a
/// failure. Where memory is short the writer pauses, where it was interrupted it lets others
/// go first.
pub proof fn law_writes_lead_on(w: PacketWrite, n: usize, e: TunError)
    requires
        w.wf(),
        0 < n <= w.len - w.written,
    ensures
        next_write(w, TunOutcome::Moved(n)) is Done <==> w.written + n == w.len,
        next_write(w, TunOutcome::Moved(n)) is Continue <==> w.written + n < w.len,
        next_write(w, TunOutcome::Moved(0)) is Fail,
        next_write(w, TunOutcome::NotReady) is Continue,
        e.code == Some(105i32) || e.code == Some(12i32) ==> next_write(w, TunOutcome::Failed(e))
            is Pause,
        (e.interrupted || e.would_block) && e.code is None ==> next_write(w, TunOutcome::Failed(e))
            is Yield,
        !e.interrupted && !e.would_block && (e.code == Some(5i32) || e.code == Some(9i32) || e.code
            == Some(19i32)) ==> next_write(w, TunOutcome::Failed(e)) is Reopen,
        !e.interrupted && !e.would_block && e.code is None ==> next_write(w, TunOutcome::Failed(e))
            is Fail,
{
}

} // verus!
