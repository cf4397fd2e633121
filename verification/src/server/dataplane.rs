//! The packet loop of the server: its command queue, its passes and its supervision.
use vstd::prelude::*;
use crate::addr::Endpoint;
use crate::server::net_setup::{TUN_IFACE, TunnelNetwork, network};

verus! {

/// Delay before the first restart, in milliseconds.
pub const RESTART_BACKOFF_INITIAL_MS: u64 = 1000;

/// Longest delay before a restart, in milliseconds.
pub const RESTART_BACKOFF_MAX_MS: u64 = 30000;

/// Uptime after which the delay starts over, in milliseconds.
pub const HEALTHY_UPTIME_MS: u64 = 60000;

/// Most commands that are taken in one pass after the first.
pub const COMMAND_DRAIN_LIMIT: usize = 4096;

/// Most system calls that flush the sockets at the end.
pub const SHUTDOWN_FLUSH_SYSCALLS: usize = 16;

/// Passes over the UDP socket in a row before the others get a turn.
pub const MAX_CONSECUTIVE_UDP_PASSES: u32 = 4;

/// Least room of the command queue.
pub const MIN_COMMAND_CAPACITY: usize = 16;

/// Received packets after which the counters are reported.
pub const REPORT_PACKETS: u64 = 1024;

/// What the packet loop is started with.
#[derive(Debug)]
pub struct DataplaneConfig {
    pub listen: Endpoint,
    pub tun_iface: String,
    pub tun_addr: String,
    pub command_capacity: usize,
}

impl DataplaneConfig {
    /// The configuration for a listening address in a network.
    pub fn new(listen: Endpoint, network: &TunnelNetwork) -> (r: Self)
        ensures
            r.listen == listen,
            r.tun_iface@ == TUN_IFACE@,
            r.tun_addr@ == network.gateway@,
            r.command_capacity == 4096,
    {
        DataplaneConfig {
            listen,
            tun_iface: TUN_IFACE.to_owned(),
            tun_addr: network.gateway.clone(),
            command_capacity: 4096,
        }
    }

    /// The room of the command queue.
    pub fn queue_capacity(&self) -> (r: usize)
        ensures
            r == (if self.command_capacity < MIN_COMMAND_CAPACITY {
                MIN_COMMAND_CAPACITY
            } else {
                self.command_capacity
            }),
    {
        if self.command_capacity < MIN_COMMAND_CAPACITY {
            MIN_COMMAND_CAPACITY
        } else {
            self.command_capacity
        }
    }
}

/// How full the command queue is.
#[derive(Clone, Copy, Debug, PartialEq, Eq, Structural)]
pub struct DataplaneQueueSnapshot {
    pub queued: usize,
    pub capacity: usize,
}

/// The command queue was full.
#[derive(Clone, Copy, Debug, PartialEq, Eq, Structural)]
pub struct CommandQueueFull;

/// A length after one item left; it does not fall below zero.
pub fn decrement_queue_len(queued: usize) -> (r: usize)
    ensures
        r == (if queued == 0 {
            0
        } else {
            queued - 1
        }),
{
    match queued.checked_sub(1) {
        Some(n) => n,
        None => queued,
    }
}

/// The sending side of the command queue.
#[derive(Debug)]
pub struct DataplaneHandle {
    pub queued_commands: usize,
    pub command_capacity: usize,
    pub shutdown_flag: bool,
}

impl DataplaneHandle {
    /// A handle on an empty queue.
    pub fn new(config: &DataplaneConfig) -> (r: Self)
        ensures
            r.queued_commands == 0,
            r.command_capacity >= MIN_COMMAND_CAPACITY,
            r.command_capacity >= config.command_capacity,
            r.command_capacity == MIN_COMMAND_CAPACITY || r.command_capacity
                == config.command_capacity,
            !r.shutdown_flag,
    {
        DataplaneHandle {
            queued_commands: 0,
            command_capacity: config.queue_capacity(),
            shutdown_flag: false,
        }
    }

    /// Accounts for a command that the channel did or did not take.
    pub fn try_send(&mut self, taken: bool) -> (r: Result<(), CommandQueueFull>)
        requires
            old(self).queued_commands < usize::MAX,
        ensures
            r is Ok <==> taken,
            *final(self) == (DataplaneHandle {
                queued_commands: if taken {
                    (old(self).queued_commands + 1) as usize
                } else {
                    old(self).queued_commands
                },
                ..*old(self)
            }),
    {
        self.queued_commands = self.queued_commands + 1;
        if !taken {
            self.queued_commands = decrement_queue_len(self.queued_commands);
            return Err(CommandQueueFull);
        }
        Ok(())
    }

    /// Asks the loop to stop. It stops even where the channel could not take the
    /// command, since the flag is set.
    pub fn shutdown(&mut self, taken: bool)
        requires
            old(self).queued_commands < usize::MAX,
        ensures
            final(self).shutdown_flag,
            final(self).command_capacity == old(self).command_capacity,
            final(self).queued_commands == (if taken {
                (old(self).queued_commands + 1) as usize
            } else {
                old(self).queued_commands
            }),
    {
        self.shutdown_flag = true;
        self.queued_commands = self.queued_commands + 1;
        if !taken {
            self.queued_commands = decrement_queue_len(self.queued_commands);
        }
    }

    /// Accounts for a command that the loop took from the queue.
    pub fn command_taken(&mut self)
        ensures
            *final(self) == (DataplaneHandle {
                queued_commands: if old(self).queued_commands == 0 {
                    0
                } else {
                    (old(self).queued_commands - 1) as usize
                },
                ..*old(self)
            }),
    {
        self.queued_commands = decrement_queue_len(self.queued_commands);
    }

    /// How full the queue is.
    pub fn command_queue_snapshot(&self) -> (r: DataplaneQueueSnapshot)
        ensures
            r.queued == self.queued_commands,
            r.capacity == self.command_capacity,
    {
        DataplaneQueueSnapshot { queued: self.queued_commands, capacity: self.command_capacity }
    }
}

// ---------------------------------------------------------------------------
// Supervision
// ---------------------------------------------------------------------------

/// How one run of the loop ended.
#[derive(Clone, Copy, Debug, PartialEq, Eq, Structural)]
pub enum Attempt {
    Finished,
    Failed,
    Panicked,
}

/// What the supervisor does next.
#[derive(Clone, Copy, Debug, PartialEq, Eq, Structural)]
pub enum SupervisorStep {
    /// Ends without an error.
    Stop,
    /// Ends with the failure of the first run.
    Fail,
    /// Waits this many milliseconds and runs the loop again.
    Restart(u64),
}

/// The state of the supervisor.
#[derive(Clone, Copy, Debug, PartialEq, Eq, Structural)]
pub struct Supervisor {
    pub first_attempt: bool,
    pub backoff_ms: u64,
}

/// The delay after `ms`: twice as long, up to the longest.
pub open spec fn next_backoff(ms: u64) -> u64 {
    if ms * 2 > RESTART_BACKOFF_MAX_MS {
        RESTART_BACKOFF_MAX_MS
    } else {
        (ms * 2) as u64
    }
}

/// What follows a run.
pub open spec fn step_after(
    supervisor: Supervisor,
    attempt: Attempt,
    shutdown: bool,
    uptime_ms: u64,
) -> SupervisorStep {
    if attempt == Attempt::Finished || shutdown {
        SupervisorStep::Stop
    } else if supervisor.first_attempt {
        SupervisorStep::Fail
    } else if uptime_ms >= HEALTHY_UPTIME_MS {
        SupervisorStep::Restart(RESTART_BACKOFF_INITIAL_MS)
    } else {
        SupervisorStep::Restart(supervisor.backoff_ms)
    }
}

impl Supervisor {
    /// The delay is within its bounds.
    pub open spec fn wf(self) -> bool {
        RESTART_BACKOFF_INITIAL_MS <= self.backoff_ms <= RESTART_BACKOFF_MAX_MS
    }

    /// Before the first run.
    pub fn new() -> (r: Self)
        ensures
            r.wf(),
            r.first_attempt,
            r.backoff_ms == RESTART_BACKOFF_INITIAL_MS,
    {
        Supervisor { first_attempt: true, backoff_ms: RESTART_BACKOFF_INITIAL_MS }
    }

    /// Whether the starter still has to be told that the first run panicked.
    pub fn reports_panic(&self, attempt: Attempt) -> (r: bool)
        ensures
            r == (self.first_attempt && attempt == Attempt::Panicked),
    {
        self.first_attempt && match attempt {
            Attempt::Panicked => true,
            _ => false,
        }
    }

    /// Decides after a run: an orderly end and a requested shutdown end it, a failure of
    /// the first run is final, and any other failure is followed by a restart.
    pub fn after_attempt(&mut self, attempt: Attempt, shutdown: bool, uptime_ms: u64) -> (r:
        SupervisorStep)
        requires
            old(self).wf(),
        ensures
            final(self).wf(),
            !final(self).first_attempt,
            r == step_after(*old(self), attempt, shutdown, uptime_ms),
            match r {
                SupervisorStep::Restart(ms) => final(self).backoff_ms == ms,
                _ => final(self).backoff_ms == old(self).backoff_ms,
            },
    {
        let first = self.first_attempt;
        self.first_attempt = false;
        let finished = match attempt {
            Attempt::Finished => true,
            _ => false,
        };
        if finished || shutdown {
            return SupervisorStep::Stop;
        }
        if first {
            return SupervisorStep::Fail;
        }
        if uptime_ms >= HEALTHY_UPTIME_MS {
            self.backoff_ms = RESTART_BACKOFF_INITIAL_MS;
        }
        SupervisorStep::Restart(self.backoff_ms)
    }

    /// Decides after the delay: runs again, with a longer delay the next time, unless a
    /// shutdown was requested meanwhile.
    pub fn after_backoff(&mut self, shutdown: bool) -> (run: bool)
        requires
            old(self).wf(),
        ensures
            final(self).wf(),
            run == !shutdown,
            final(self).first_attempt == old(self).first_attempt,
            final(self).backoff_ms == (if shutdown {
                old(self).backoff_ms
            } else {
                next_backoff(old(self).backoff_ms)
            }),
    {
        if shutdown {
            return false;
        }
        let doubled: u64 = self.backoff_ms * 2;
        self.backoff_ms = if doubled > RESTART_BACKOFF_MAX_MS {
            RESTART_BACKOFF_MAX_MS
        } else {
            doubled
        };
        true
    }
}

/// How the thread of the loop ended once it was asked to.
#[derive(Clone, Copy, Debug, PartialEq, Eq, Structural)]
pub enum ThreadEnd {
    Finished,
    Failed,
    Panicked,
    /// It did not end in time and is left to itself.
    TimedOut,
}

/// What a shutdown gives.
#[derive(Clone, Copy, Debug, PartialEq, Eq, Structural)]
pub enum ShutdownResult {
    Done,
    /// The error of the thread.
    ThreadFailed,
    ThreadPanicked,
    /// The thread could not be asked.
    SignalFailed,
}

/// What a shutdown gives: an error of the thread goes before one of asking it.
pub fn shutdown_result(asked: bool, end: ThreadEnd) -> (r: ShutdownResult)
    ensures
        r == ended(asked, end),
{
    match end {
        ThreadEnd::Panicked => ShutdownResult::ThreadPanicked,
        ThreadEnd::Failed => ShutdownResult::ThreadFailed,
        _ => {
            if asked {
                ShutdownResult::Done
            } else {
                ShutdownResult::SignalFailed
            }
        },
    }
}

/// The delay after `n` failures in a row, none of them after a healthy uptime.
pub open spec fn backoff_after(n: nat) -> u64
    decreases n,
{
    if n == 0 {
        RESTART_BACKOFF_INITIAL_MS
    } else {
        next_backoff(backoff_after((n - 1) as nat))
    }
}

/// The delays never shrink while failures go on, stay within their bounds, and reach
/// the longest after five failures.
pub proof fn law_backoff_grows_to_its_limit(n: nat)
    ensures
        RESTART_BACKOFF_INITIAL_MS <= backoff_after(n) <= RESTART_BACKOFF_MAX_MS,
        backoff_after(n) <= backoff_after(n + 1),
        n >= 5 ==> backoff_after(n) == RESTART_BACKOFF_MAX_MS,
    decreases n,
{
    if n > 0 {
        law_backoff_grows_to_its_limit((n - 1) as nat);
    }
    if n == 5 {
        reveal_with_fuel(backoff_after, 6);
    }
}

// ---------------------------------------------------------------------------
// Passes
// ---------------------------------------------------------------------------

/// The counters that decide about a report.
#[derive(Clone, Copy, Debug, PartialEq, Eq, Structural)]
pub struct PassCounters {
    pub udp_rx_packets: u64,
    pub tun_rx_packets: u64,
    pub udp_rx_errors: u64,
    pub udp_tx_errors: u64,
    pub tun_rx_errors: u64,
    pub tun_tx_errors: u64,
}

/// What woke the loop.
#[derive(Clone, Copy, Debug, PartialEq, Eq, Structural)]
pub enum PassEvent {
    Cancelled,
    Tick,
    /// A command for the logic.
    Command,
    /// The command to stop, or the end of the command channel.
    CommandEnd,
    UdpReadable,
    TunReadable,
    UdpWritable,
    TunWritable,
}

/// What the loop does about it.
#[derive(Clone, Copy, Debug, PartialEq, Eq, Structural)]
pub enum PassAction {
    /// Leaves the loop.
    Stop,
    /// Runs the periodic work and publishes the measurements.
    RunTick,
    /// Runs this command and then those that wait.
    RunCommands,
    /// Reads datagrams.
    ReadUdp,
    /// Reads from the tunnel device.
    ReadTun,
    /// Writes waiting datagrams.
    FlushUdp,
    /// Writes waiting packets to the tunnel device.
    FlushTun,
    /// Does nothing: the source is not served in this pass.
    Ignore,
}

/// The state that the loop carries from pass to pass.
#[derive(Clone, Copy, Debug, PartialEq, Eq, Structural)]
pub struct PassState {
    pub consecutive_udp_passes: u32,
    pub last_counters: PassCounters,
    pub last_report_packets: u64,
    pub publish_perf: bool,
}

/// All packets received.
pub open spec fn total_received(c: PassCounters) -> u64 {
    if c.udp_rx_packets + c.tun_rx_packets > u64::MAX {
        u64::MAX
    } else {
        (c.udp_rx_packets + c.tun_rx_packets) as u64
    }
}

/// Whether an error counter moved.
pub open spec fn errors_changed(a: PassCounters, b: PassCounters) -> bool {
    a.udp_rx_errors != b.udp_rx_errors || a.udp_tx_errors != b.udp_tx_errors || a.tun_rx_errors
        != b.tun_rx_errors || a.tun_tx_errors != b.tun_tx_errors
}

/// Whether counters are reported at the end of a pass.
pub open spec fn report_due(state: PassState, counters: PassCounters) -> bool {
    total_received(counters) - state.last_report_packets >= REPORT_PACKETS || errors_changed(
        counters,
        state.last_counters,
    )
}

/// What an event leads to. Sources that are not selected in a pass are ignored.
pub open spec fn action_for(
    state: PassState,
    event: PassEvent,
    udp_pending: bool,
    tun_pending: bool,
) -> PassAction {
    match event {
        PassEvent::Cancelled => PassAction::Stop,
        PassEvent::Tick => PassAction::RunTick,
        PassEvent::Command => PassAction::RunCommands,
        PassEvent::CommandEnd => PassAction::Stop,
        PassEvent::UdpReadable => if state.consecutive_udp_passes < MAX_CONSECUTIVE_UDP_PASSES {
            PassAction::ReadUdp
        } else {
            PassAction::Ignore
        },
        PassEvent::TunReadable => PassAction::ReadTun,
        PassEvent::UdpWritable => if udp_pending {
            PassAction::FlushUdp
        } else {
            PassAction::Ignore
        },
        PassEvent::TunWritable => if tun_pending {
            PassAction::FlushTun
        } else {
            PassAction::Ignore
        },
    }
}

/// The run of UDP passes after an event: reading datagrams makes it longer, ticks,
/// commands and tunnel packets end it.
pub open spec fn udp_passes_after(state: PassState, event: PassEvent) -> u32 {
    match event {
        PassEvent::Tick => 0,
        PassEvent::Command => 0,
        PassEvent::CommandEnd => 0,
        PassEvent::TunReadable => 0,
        PassEvent::UdpReadable => if state.consecutive_udp_passes < MAX_CONSECUTIVE_UDP_PASSES {
            (state.consecutive_udp_passes + 1) as u32
        } else {
            state.consecutive_udp_passes
        },
        _ => state.consecutive_udp_passes,
    }
}

impl PassState {
    /// The run of UDP passes is never longer than allowed.
    pub open spec fn wf(self) -> bool {
        self.consecutive_udp_passes <= MAX_CONSECUTIVE_UDP_PASSES
    }

    /// Before the first pass.
    pub fn new(counters: PassCounters) -> (r: Self)
        ensures
            r.wf(),
            r.consecutive_udp_passes == 0,
            r.last_counters == counters,
            r.last_report_packets == 0,
            !r.publish_perf,
    {
        PassState {
            consecutive_udp_passes: 0,
            last_counters: counters,
            last_report_packets: 0,
            publish_perf: false,
        }
    }

    /// Whether the UDP socket is left out of the next selection.
    pub fn udp_throttled(&self) -> (r: bool)
        ensures
            r == (self.consecutive_udp_passes >= MAX_CONSECUTIVE_UDP_PASSES),
    {
        self.consecutive_udp_passes >= MAX_CONSECUTIVE_UDP_PASSES
    }

    /// Takes an event.
    pub fn on_event(&mut self, event: PassEvent, udp_pending: bool, tun_pending: bool) -> (r:
        PassAction)
        requires
            old(self).wf(),
        ensures
            final(self).wf(),
            r == action_for(*old(self), event, udp_pending, tun_pending),
            *final(self) == (PassState {
                consecutive_udp_passes: udp_passes_after(*old(self), event),
                publish_perf: old(self).publish_perf || event == PassEvent::Tick,
                ..*old(self)
            }),
    {
        match event {
            PassEvent::Cancelled => PassAction::Stop,
            PassEvent::Tick => {
                self.consecutive_udp_passes = 0;
                self.publish_perf = true;
                PassAction::RunTick
            },
            PassEvent::Command => {
                self.consecutive_udp_passes = 0;
                PassAction::RunCommands
            },
            PassEvent::CommandEnd => {
                self.consecutive_udp_passes = 0;
                PassAction::Stop
            },
            PassEvent::UdpReadable => {
                if self.udp_throttled() {
                    PassAction::Ignore
                } else {
                    self.consecutive_udp_passes = self.consecutive_udp_passes + 1;
                    PassAction::ReadUdp
                }
            },
            PassEvent::TunReadable => {
                self.consecutive_udp_passes = 0;
                PassAction::ReadTun
            },
            PassEvent::UdpWritable => {
                if udp_pending {
                    PassAction::FlushUdp
                } else {
                    PassAction::Ignore
                }
            },
            PassEvent::TunWritable => {
                if tun_pending {
                    PassAction::FlushTun
                } else {
                    PassAction::Ignore
                }
            },
        }
    }

    /// Ends a pass: tells whether the counters are reported, and whether measurements
    /// are published. Counters are reported once enough packets came in, or where an
    /// error counter moved.
    pub fn finish_pass(&mut self, counters: PassCounters) -> (r: (bool, bool))
        requires
            old(self).wf(),
        ensures
            final(self).wf(),
            ({
                let total = total_received(counters);
                let due = report_due(*old(self), counters);
                &&& r.0 == due
                &&& r.1 == old(self).publish_perf
                &&& *final(self) == if due {
                    PassState {
                        last_counters: counters,
                        last_report_packets: total,
                        publish_perf: false,
                        ..*old(self)
                    }
                } else {
                    PassState { publish_perf: false, ..*old(self) }
                }
            }),
    {
        let total: u64 = counters.udp_rx_packets.saturating_add(counters.tun_rx_packets);
        let due = total.saturating_sub(self.last_report_packets) >= REPORT_PACKETS
            || counters.udp_tx_errors != self.last_counters.udp_tx_errors || counters.tun_tx_errors
            != self.last_counters.tun_tx_errors || counters.udp_rx_errors
            != self.last_counters.udp_rx_errors || counters.tun_rx_errors
            != self.last_counters.tun_rx_errors;
        if due {
            self.last_counters = counters;
            self.last_report_packets = total;
        }
        let publish = self.publish_perf;
        self.publish_perf = false;
        (due, publish)
    }
}

/// The state after a sequence of events.
pub open spec fn passes_after(state: PassState, events: Seq<PassEvent>) -> PassState
    decreases events.len(),
{
    if events.len() == 0 {
        state
    } else {
        let before = passes_after(state, events.drop_last());
        PassState {
            consecutive_udp_passes: udp_passes_after(before, events.last()),
            publish_perf: before.publish_perf || events.last() == PassEvent::Tick,
            ..before
        }
    }
}

/// A flood of datagrams cannot starve the tunnel device, the commands or the timer:
/// after the allowed number of UDP passes in a row the socket is left out.
pub proof fn law_udp_cannot_starve(state: PassState, events: Seq<PassEvent>, n: int)
    requires
        state.wf(),
        n >= MAX_CONSECUTIVE_UDP_PASSES,
        events.len() >= n,
        forall|i: int|
            events.len() - n <= i < events.len() ==> #[trigger] events[i]
                == PassEvent::UdpReadable,
    ensures
        passes_after(state, events).consecutive_udp_passes == MAX_CONSECUTIVE_UDP_PASSES,
        action_for(passes_after(state, events), PassEvent::UdpReadable, true, true)
            == PassAction::Ignore,
{
    lemma_udp_run(state, events, n);
}

proof fn lemma_udp_run(state: PassState, events: Seq<PassEvent>, n: int)
    requires
        state.wf(),
        0 <= n <= events.len(),
        forall|i: int|
            events.len() - n <= i < events.len() ==> #[trigger] events[i]
                == PassEvent::UdpReadable,
    ensures
        passes_after(state, events).consecutive_udp_passes >= (if n
            < MAX_CONSECUTIVE_UDP_PASSES {
            n
        } else {
            MAX_CONSECUTIVE_UDP_PASSES as int
        }),
        passes_after(state, events).wf(),
    decreases events.len(),
{
    if events.len() > 0 {
        let d = events.drop_last();
        if n > 0 {
            assert(events[events.len() - 1] == PassEvent::UdpReadable);
            assert forall|i: int| d.len() - (n - 1) <= i < d.len() implies #[trigger] d[i]
                == PassEvent::UdpReadable by {
                assert(events[i] == d[i]);
            }
            lemma_udp_run(state, d, n - 1);
        } else {
            lemma_udp_run(state, d, 0);
        }
    }
}

/// What taking one more waiting command gave.
#[derive(Clone, Copy, Debug, PartialEq, Eq, Structural)]
pub enum DrainEvent {
    Command,
    Shutdown,
    Empty,
}

/// What the loop does after that.
#[derive(Clone, Copy, Debug, PartialEq, Eq, Structural)]
pub enum DrainStep {
    /// Runs the command and takes the next one.
    Run,
    /// Runs the command and goes on with the pass: enough were taken.
    RunLast,
    /// Goes on with the pass.
    Done,
    /// Leaves the loop.
    Stop,
}

/// What is done with a waiting command, after `taken` of them in this pass.
pub fn drain_step(taken: usize, event: DrainEvent) -> (r: DrainStep)
    requires
        taken < COMMAND_DRAIN_LIMIT,
    ensures
        r == drained(taken, event),
{
    match event {
        DrainEvent::Command => {
            if taken + 1 < COMMAND_DRAIN_LIMIT {
                DrainStep::Run
            } else {
                DrainStep::RunLast
            }
        },
        DrainEvent::Shutdown => DrainStep::Stop,
        DrainEvent::Empty => DrainStep::Done,
    }
}

/// How many more packets a pass reads: none once it has read `limit` or the source is
/// drained.
pub fn read_budget(processed: usize, limit: usize, drained: bool) -> (r: usize)
    ensures
        r == (if drained || processed >= limit {
            0
        } else {
            limit - processed
        }),
{
    if drained || processed >= limit {
        0
    } else {
        limit - processed
    }
}

/// How a read from the tunnel device went.
#[derive(Clone, Copy, Debug, PartialEq, Eq, Structural)]
pub enum TunRead {
    /// So many packets came; none where nothing waits.
    Packets(usize),
    Failed,
}

/// What a pass that reads from the tunnel device does next.
#[derive(Clone, Copy, Debug, PartialEq, Eq, Structural)]
pub enum TunReadStep {
    /// Reads again, with so many packets read so far.
    Again(usize),
    /// Ends the reading, with so many packets read.
    Done(usize),
    /// Ends the run with an error.
    Fail,
}

/// Decides after a read of a pass that reads up to `limit` packets and had read
/// `processed` before. A read may bring more packets than were asked for.
pub fn tun_read_step(processed: usize, limit: usize, read: TunRead) -> (r: TunReadStep)
    requires
        read matches TunRead::Packets(count) ==> processed + count <= usize::MAX,
    ensures
        r == tun_read(processed, limit, read),
{
    match read {
        TunRead::Packets(count) => {
            if count > 0 && processed + count < limit {
                TunReadStep::Again(processed + count)
            } else {
                TunReadStep::Done(processed + count)
            }
        },
        TunRead::Failed => TunReadStep::Fail,
    }
}

/// What is done about what waits to be written.
#[derive(Clone, Copy, Debug, PartialEq, Eq, Structural)]
pub enum FlushStep {
    /// Ends the run with an error.
    Fail,
    /// Writes the datagrams with at most so many system calls, where there is a number,
    /// and then the packets for the tunnel device, where it says so.
    Flush(Option<usize>, bool),
    /// Goes on: nothing waits.
    GoOn,
}

/// Decides at the end of a pass, once more after its flush, and when the loop is left.
///
/// A tunnel device that cannot be written to any more ends the run. Within the run all
/// that waits is written; when the loop is left the system calls for datagrams are
/// limited, and nothing fails any more.
pub fn flush_step(fatal: bool, udp_pending: bool, tun_pending: bool, stopping: bool) -> (r:
    FlushStep)
    ensures
        r == flushed(fatal, udp_pending, tun_pending, stopping),
{
    if fatal && !stopping {
        return FlushStep::Fail;
    }
    if !udp_pending && !tun_pending {
        return FlushStep::GoOn;
    }
    let calls: Option<usize> = if !udp_pending {
        None
    } else if stopping {
        Some(SHUTDOWN_FLUSH_SYSCALLS)
    } else {
        Some(usize::MAX)
    };
    FlushStep::Flush(calls, tun_pending)
}

/// The delay before a restart doubles up to half a minute.
pub proof fn law_delay_doubles(ms: u64)
    ensures
        ms <= 15000 ==> next_backoff(ms) == 2 * ms,
        ms > 15000 ==> next_backoff(ms) == 30000,
        backoff_after(0) == 1000,
{
}

/// A run that ends in order, or while the program ends, is the last; the first run that
/// fails is the last as well. Any later failure is followed by a restart, at once delayed
/// by a second where the run had lasted a minute.
pub proof fn law_only_later_failures_restart(
    supervisor: Supervisor,
    attempt: Attempt,
    shutdown: bool,
    uptime_ms: u64,
)
    ensures
        step_after(supervisor, attempt, shutdown, uptime_ms) is Stop <==> attempt
            == Attempt::Finished || shutdown,
        step_after(supervisor, attempt, shutdown, uptime_ms) is Fail <==> attempt
            != Attempt::Finished && !shutdown && supervisor.first_attempt,
        step_after(supervisor, attempt, shutdown, uptime_ms) matches SupervisorStep::Restart(ms)
            ==> !supervisor.first_attempt && (if uptime_ms < 60000 {
            ms == supervisor.backoff_ms
        } else {
            ms == 1000
        }),
{
}

/// Counters are reported after every 1024 packets and whenever an error counter moved.
pub proof fn law_reports_follow_packets_and_errors(state: PassState, counters: PassCounters)
    ensures
        counters.udp_rx_errors != state.last_counters.udp_rx_errors ==> report_due(state, counters),
        counters.udp_tx_errors != state.last_counters.udp_tx_errors ==> report_due(state, counters),
        counters.tun_rx_errors != state.last_counters.tun_rx_errors ==> report_due(state, counters),
        counters.tun_tx_errors != state.last_counters.tun_tx_errors ==> report_due(state, counters),
        counters.udp_rx_packets + counters.tun_rx_packets <= u64::MAX && counters.udp_rx_packets
            + counters.tun_rx_packets >= state.last_report_packets + 1024 ==> report_due(
            state,
            counters,
        ),
        counters.udp_rx_packets + counters.tun_rx_packets < state.last_report_packets + 1024
            && counters.udp_rx_errors == state.last_counters.udp_rx_errors
            && counters.udp_tx_errors == state.last_counters.udp_tx_errors
            && counters.tun_rx_errors == state.last_counters.tun_rx_errors
            && counters.tun_tx_errors == state.last_counters.tun_tx_errors ==> !report_due(
            state,
            counters,
        ),
        counters.udp_rx_packets + counters.tun_rx_packets <= u64::MAX ==> total_received(counters)
            == counters.udp_rx_packets + counters.tun_rx_packets,
{
}

/// What an event of a pass leads to: an end stops the loop, a reading side is read, a
/// writing side is flushed where something waits for it, and only the network is ever
/// passed over while it can be read, after four reads in a row.
pub proof fn law_events_lead_to_their_actions(
    state: PassState,
    udp_pending: bool,
    tun_pending: bool,
)
    ensures
        action_for(state, PassEvent::Cancelled, udp_pending, tun_pending) is Stop,
        action_for(state, PassEvent::CommandEnd, udp_pending, tun_pending) is Stop,
        action_for(state, PassEvent::Tick, udp_pending, tun_pending) is RunTick,
        action_for(state, PassEvent::Command, udp_pending, tun_pending) is RunCommands,
        action_for(state, PassEvent::TunReadable, udp_pending, tun_pending) is ReadTun,
        state.consecutive_udp_passes < 4 ==> action_for(
            state,
            PassEvent::UdpReadable,
            udp_pending,
            tun_pending,
        ) is ReadUdp,
        state.consecutive_udp_passes >= 4 ==> action_for(
            state,
            PassEvent::UdpReadable,
            udp_pending,
            tun_pending,
        ) is Ignore,
        action_for(state, PassEvent::UdpWritable, true, tun_pending) is FlushUdp,
        action_for(state, PassEvent::UdpWritable, false, tun_pending) is Ignore,
        action_for(state, PassEvent::TunWritable, udp_pending, true) is FlushTun,
        action_for(state, PassEvent::TunWritable, udp_pending, false) is Ignore,
{
}

/// Only reading the network counts towards its limit; a tick, a command or a packet from
/// the tunnel starts the count anew, and flushing leaves it alone.
pub proof fn law_other_work_restarts_the_count(state: PassState)
    ensures
        udp_passes_after(state, PassEvent::Tick) == 0,
        udp_passes_after(state, PassEvent::Command) == 0,
        udp_passes_after(state, PassEvent::TunReadable) == 0,
        state.consecutive_udp_passes < 4 ==> udp_passes_after(state, PassEvent::UdpReadable)
            == state.consecutive_udp_passes + 1,
        udp_passes_after(state, PassEvent::UdpWritable) == state.consecutive_udp_passes,
        udp_passes_after(state, PassEvent::TunWritable) == state.consecutive_udp_passes,
{
}

/// What follows a look at the command queue.
pub open spec fn drained(taken: usize, event: DrainEvent) -> DrainStep {
    match event {
        DrainEvent::Command => if taken + 1 < COMMAND_DRAIN_LIMIT {
            DrainStep::Run
        } else {
            DrainStep::RunLast
        },
        DrainEvent::Shutdown => DrainStep::Stop,
        DrainEvent::Empty => DrainStep::Done,
    }
}

/// Every command that is taken is run, the 4096th of a pass as the last; a shutdown stops
/// the loop, and an empty queue ends the pass.
pub proof fn law_commands_run_in_batches(taken: usize)
    requires
        taken < 4096,
    ensures
        taken < 4095 ==> drained(taken, DrainEvent::Command) is Run,
        taken == 4095 ==> drained(taken, DrainEvent::Command) is RunLast,
        drained(taken, DrainEvent::Shutdown) is Stop,
        drained(taken, DrainEvent::Empty) is Done,
{
}

/// What follows a read of the tunnel device.
pub open spec fn tun_read(processed: usize, limit: usize, read: TunRead) -> TunReadStep {
    match read {
        TunRead::Packets(count) => if count > 0 && processed + count < limit {
            TunReadStep::Again((processed + count) as usize)
        } else {
            TunReadStep::Done((processed + count) as usize)
        },
        TunRead::Failed => TunReadStep::Fail,
    }
}

/// The device is read until it is empty or the limit is reached, and every packet counts.
pub proof fn law_tunnel_is_read_to_the_limit(processed: usize, limit: usize, count: usize)
    requires
        processed + count <= usize::MAX,
    ensures
        count > 0 && processed + count < limit ==> tun_read(
            processed,
            limit,
            TunRead::Packets(count),
        ) == TunReadStep::Again((processed + count) as usize),
        count == 0 ==> tun_read(processed, limit, TunRead::Packets(count)) == TunReadStep::Done(
            processed,
        ),
        processed + count >= limit ==> tun_read(processed, limit, TunRead::Packets(count))
            == TunReadStep::Done((processed + count) as usize),
        tun_read(processed, limit, TunRead::Failed) is Fail,
{
}

/// What follows a pass.
pub open spec fn flushed(
    fatal: bool,
    udp_pending: bool,
    tun_pending: bool,
    stopping: bool,
) -> FlushStep {
    if fatal && !stopping {
        FlushStep::Fail
    } else if udp_pending || tun_pending {
        FlushStep::Flush(
            if !udp_pending {
                None
            } else if stopping {
                Some(SHUTDOWN_FLUSH_SYSCALLS)
            } else {
                Some(usize::MAX)
            },
            tun_pending,
        )
    } else {
        FlushStep::GoOn
    }
}

/// Whatever waits is flushed, to the network and to the tunnel, and nothing else; the
/// network at most sixteen times while the loop ends, and without a limit else. A fault ends
/// the loop, unless it ends already.
pub proof fn law_what_waits_is_flushed(fatal: bool, udp: bool, tun: bool, stopping: bool)
    ensures
        flushed(fatal, udp, tun, stopping) is Fail <==> fatal && !stopping,
        !fatal || stopping ==> (flushed(fatal, udp, tun, stopping) is GoOn <==> !udp && !tun),
        flushed(fatal, udp, tun, stopping) matches FlushStep::Flush(calls, t) ==> t == tun && (
        calls is Some <==> udp) && (calls matches Some(n) ==> n == (if stopping {
            16
        } else {
            usize::MAX
        })),
{
}

/// How a shutdown went.
pub open spec fn ended(asked: bool, end: ThreadEnd) -> ShutdownResult {
    match end {
        ThreadEnd::Panicked => ShutdownResult::ThreadPanicked,
        ThreadEnd::Failed => ShutdownResult::ThreadFailed,
        _ => if asked {
            ShutdownResult::Done
        } else {
            ShutdownResult::SignalFailed
        },
    }
}

/// A shutdown is done where it could be asked for and the thread had no fault; a fault of
/// the thread is told first.
pub proof fn law_shutdown_tells_faults(asked: bool, end: ThreadEnd)
    ensures
        end == ThreadEnd::Panicked <==> ended(asked, end) is ThreadPanicked,
        end == ThreadEnd::Failed <==> ended(asked, end) is ThreadFailed,
        ended(asked, end) is Done <==> asked && end != ThreadEnd::Panicked && end
            != ThreadEnd::Failed,
        ended(asked, end) is SignalFailed ==> !asked,
{
}

} // verus!
