//! Once a second, what the server did in that second.
use vstd::prelude::*;
use crate::text::{
    chars_of, lemma_text_lt_total, lemma_text_lt_trans, same_chars, text_less, text_lt,
};

verus! {

/// Running totals of the packet loop.
#[derive(Clone, Copy, Debug, PartialEq, Eq, Structural)]
pub struct IoCounters {
    pub udp_rx_packets: u64,
    pub udp_rx_bytes: u64,
    pub udp_rx_errors: u64,
    pub udp_tx_packets: u64,
    pub udp_tx_bytes: u64,
    pub udp_tx_errors: u64,
    pub udp_tx_drops: u64,
    pub tun_rx_packets: u64,
    pub tun_rx_bytes: u64,
    pub tun_rx_errors: u64,
    pub tun_tx_packets: u64,
    pub tun_tx_bytes: u64,
    pub tun_tx_errors: u64,
    pub tun_tx_drops: u64,
    pub readiness_wakeups: u64,
    pub udp_recv_syscalls: u64,
    pub udp_send_syscalls: u64,
    pub udp_rx_eagain: u64,
    pub udp_tx_eagain: u64,
    pub partial_sendmmsg: u64,
    pub free_udp_tx_slots: u64,
    pub free_tun_tx_slots: u64,
    pub udp_recv_batch_max: u64,
    pub udp_rx_enobufs: u64,
    pub udp_tx_enobufs: u64,
}

/// Processor time of one thread since it started, in nanoseconds.
#[derive(Debug)]
pub struct ThreadCpuSnapshot {
    pub tid: u32,
    pub name: String,
    pub user_ns: u64,
    pub system_ns: u64,
}

/// Processor time of one thread within a second, in nanoseconds.
#[derive(Debug)]
pub struct ThreadCpuFrame {
    pub tid: u32,
    pub name: String,
    pub user_cpu_ns: u64,
    pub system_cpu_ns: u64,
}

/// How often a stage ran, and how long the runs took that were measured.
#[derive(Clone, Copy, Debug, PartialEq, Eq, Structural)]
pub struct StageCounters {
    pub operations: u64,
    pub samples: u64,
    pub sampled_ns: u64,
}

/// What the profiler measured since the reading before, stage by stage. One in
/// `crypto_sample_interval` runs of the cryptography is measured, and one in
/// `all_sample_interval` of everything else.
#[derive(Clone, Copy, Debug, PartialEq, Eq, Structural)]
pub struct SampledStages {
    pub crypto_sample_interval: u64,
    pub chacha: StageCounters,
    pub srtp: StageCounters,
    pub unwrap_crypto: StageCounters,
    pub wrap_crypto: StageCounters,
    pub all_sample_interval: u64,
    pub dispatch: StageCounters,
    pub flush: StageCounters,
    pub bookkeeping: StageCounters,
    pub udp_rx: StageCounters,
    pub route_replay: StageCounters,
    pub tun_write: StageCounters,
    pub tun_rx: StageCounters,
    pub udp_queue: StageCounters,
}

/// Everything that is read at one moment.
#[derive(Debug)]
pub struct Reading {
    pub at_ns: u64,
    /// Milliseconds since 1970.
    pub timestamp_ms: u64,
    pub active_sessions: u64,
    pub dataplane_tid: u32,
    pub sampled: SampledStages,
    pub counters: IoCounters,
    pub crypto_ops: u64,
    pub process_cpu_ns: u64,
    pub process_user_ns: u64,
    pub process_system_ns: u64,
    pub dataplane_cpu_ns: u64,
    pub dataplane_sequence: u64,
    /// Empty unless threads are watched.
    pub threads: Vec<ThreadCpuSnapshot>,
}

/// What happened within one second.
#[derive(Debug)]
pub struct SyscallsFrame {
    pub timestamp_ms: u64,
    pub active_sessions: u64,
    pub dataplane_tid: u32,
    pub sampled: SampledStages,
    pub sample_window_ns: u64,
    pub process_cpu_ns: u64,
    pub process_user_cpu_ns: u64,
    pub process_system_cpu_ns: u64,
    pub dataplane_cpu_ns: u64,
    pub threads: Vec<ThreadCpuFrame>,
    /// Differences of the running totals; the gauges among them as they are.
    pub io: IoCounters,
    pub crypto_ops_s: u64,
    pub total_udp_rx_packets: u64,
    pub total_udp_tx_packets: u64,
    pub total_tun_rx_packets: u64,
    pub total_tun_tx_packets: u64,
}

/// What one second calls for.
#[derive(Debug)]
pub enum SampleStep {
    /// Nobody watches.
    Idle,
    /// The first reading of a watch; the next one can be compared with it.
    Started,
    /// A frame to send out.
    Frame(SyscallsFrame),
}

/// How far a running total moved; a total that was reset counts as zero.
pub open spec fn moved(now: u64, before: u64) -> u64 {
    if now >= before {
        (now - before) as u64
    } else {
        0
    }
}

/// How far the totals moved; gauges are taken as they are.
pub open spec fn io_moved(now: IoCounters, before: IoCounters) -> IoCounters {
    IoCounters {
        udp_rx_packets: moved(now.udp_rx_packets, before.udp_rx_packets),
        udp_rx_bytes: moved(now.udp_rx_bytes, before.udp_rx_bytes),
        udp_rx_errors: moved(now.udp_rx_errors, before.udp_rx_errors),
        udp_tx_packets: moved(now.udp_tx_packets, before.udp_tx_packets),
        udp_tx_bytes: moved(now.udp_tx_bytes, before.udp_tx_bytes),
        udp_tx_errors: moved(now.udp_tx_errors, before.udp_tx_errors),
        udp_tx_drops: moved(now.udp_tx_drops, before.udp_tx_drops),
        tun_rx_packets: moved(now.tun_rx_packets, before.tun_rx_packets),
        tun_rx_bytes: moved(now.tun_rx_bytes, before.tun_rx_bytes),
        tun_rx_errors: moved(now.tun_rx_errors, before.tun_rx_errors),
        tun_tx_packets: moved(now.tun_tx_packets, before.tun_tx_packets),
        tun_tx_bytes: moved(now.tun_tx_bytes, before.tun_tx_bytes),
        tun_tx_errors: moved(now.tun_tx_errors, before.tun_tx_errors),
        tun_tx_drops: moved(now.tun_tx_drops, before.tun_tx_drops),
        readiness_wakeups: moved(now.readiness_wakeups, before.readiness_wakeups),
        udp_recv_syscalls: moved(now.udp_recv_syscalls, before.udp_recv_syscalls),
        udp_send_syscalls: moved(now.udp_send_syscalls, before.udp_send_syscalls),
        udp_rx_eagain: moved(now.udp_rx_eagain, before.udp_rx_eagain),
        udp_tx_eagain: moved(now.udp_tx_eagain, before.udp_tx_eagain),
        partial_sendmmsg: moved(now.partial_sendmmsg, before.partial_sendmmsg),
        free_udp_tx_slots: now.free_udp_tx_slots,
        free_tun_tx_slots: now.free_tun_tx_slots,
        udp_recv_batch_max: now.udp_recv_batch_max,
        udp_rx_enobufs: moved(now.udp_rx_enobufs, before.udp_rx_enobufs),
        udp_tx_enobufs: moved(now.udp_tx_enobufs, before.udp_tx_enobufs),
    }
}

fn io_difference(now: IoCounters, before: IoCounters) -> (r: IoCounters)
    ensures
        r == io_moved(now, before),
{
    IoCounters {
        udp_rx_packets: now.udp_rx_packets.saturating_sub(before.udp_rx_packets),
        udp_rx_bytes: now.udp_rx_bytes.saturating_sub(before.udp_rx_bytes),
        udp_rx_errors: now.udp_rx_errors.saturating_sub(before.udp_rx_errors),
        udp_tx_packets: now.udp_tx_packets.saturating_sub(before.udp_tx_packets),
        udp_tx_bytes: now.udp_tx_bytes.saturating_sub(before.udp_tx_bytes),
        udp_tx_errors: now.udp_tx_errors.saturating_sub(before.udp_tx_errors),
        udp_tx_drops: now.udp_tx_drops.saturating_sub(before.udp_tx_drops),
        tun_rx_packets: now.tun_rx_packets.saturating_sub(before.tun_rx_packets),
        tun_rx_bytes: now.tun_rx_bytes.saturating_sub(before.tun_rx_bytes),
        tun_rx_errors: now.tun_rx_errors.saturating_sub(before.tun_rx_errors),
        tun_tx_packets: now.tun_tx_packets.saturating_sub(before.tun_tx_packets),
        tun_tx_bytes: now.tun_tx_bytes.saturating_sub(before.tun_tx_bytes),
        tun_tx_errors: now.tun_tx_errors.saturating_sub(before.tun_tx_errors),
        tun_tx_drops: now.tun_tx_drops.saturating_sub(before.tun_tx_drops),
        readiness_wakeups: now.readiness_wakeups.saturating_sub(before.readiness_wakeups),
        udp_recv_syscalls: now.udp_recv_syscalls.saturating_sub(before.udp_recv_syscalls),
        udp_send_syscalls: now.udp_send_syscalls.saturating_sub(before.udp_send_syscalls),
        udp_rx_eagain: now.udp_rx_eagain.saturating_sub(before.udp_rx_eagain),
        udp_tx_eagain: now.udp_tx_eagain.saturating_sub(before.udp_tx_eagain),
        partial_sendmmsg: now.partial_sendmmsg.saturating_sub(before.partial_sendmmsg),
        free_udp_tx_slots: now.free_udp_tx_slots,
        free_tun_tx_slots: now.free_tun_tx_slots,
        udp_recv_batch_max: now.udp_recv_batch_max,
        udp_rx_enobufs: now.udp_rx_enobufs.saturating_sub(before.udp_rx_enobufs),
        udp_tx_enobufs: now.udp_tx_enobufs.saturating_sub(before.udp_tx_enobufs),
    }
}

/// The earlier reading of a thread.
pub open spec fn thread_before(threads: Seq<ThreadCpuSnapshot>, tid: u32) -> Option<int>
    decreases threads.len(),
{
    if threads.len() == 0 {
        None
    } else if threads.last().tid == tid {
        Some(threads.len() - 1)
    } else {
        thread_before(threads.drop_last(), tid)
    }
}

/// What a thread used since its earlier reading; nothing where there is none.
pub open spec fn is_thread_frame(
    frame: ThreadCpuFrame,
    now: ThreadCpuSnapshot,
    before: Seq<ThreadCpuSnapshot>,
) -> bool {
    &&& frame.tid == now.tid
    &&& frame.name@ == now.name@
    &&& match thread_before(before, now.tid) {
        Some(i) => frame.user_cpu_ns == moved(now.user_ns, before[i].user_ns)
            && frame.system_cpu_ns == moved(now.system_ns, before[i].system_ns),
        None => frame.user_cpu_ns == 0 && frame.system_cpu_ns == 0,
    }
}

/// By name first, then by number.
pub open spec fn thread_not_after(a: ThreadCpuFrame, b: ThreadCpuFrame) -> bool {
    text_lt(a.name@, b.name@) || (a.name@ == b.name@ && a.tid <= b.tid)
}

/// The frames of all threads in order: one for each thread, by name and number.
pub open spec fn thread_frames(
    frames: Seq<ThreadCpuFrame>,
    now: Seq<ThreadCpuSnapshot>,
    before: Seq<ThreadCpuSnapshot>,
) -> bool {
    &&& frames.len() == now.len()
    &&& forall|i: int, j: int|
        #![trigger frames[i], frames[j]]
        0 <= i < j < frames.len() ==> thread_not_after(frames[i], frames[j])
    &&& exists|order: Seq<int>|
        {
            &&& #[trigger] order.len() == now.len()
            &&& order.no_duplicates()
            &&& forall|i: int|
                0 <= i < order.len() ==> 0 <= #[trigger] order[i] < now.len() && is_thread_frame(
                    frames[i],
                    now[order[i]],
                    before,
                )
        }
}

fn find_thread(threads: &Vec<ThreadCpuSnapshot>, tid: u32) -> (r: Option<usize>)
    ensures
        match r {
            Some(i) => i < threads@.len() && thread_before(threads@, tid) == Some(i as int),
            None => thread_before(threads@, tid) is None,
        },
{
    let mut n: usize = threads.len();
    proof {
        assert(threads@.take(n as int) =~= threads@);
    }
    while n > 0
        invariant
            n <= threads@.len(),
            thread_before(threads@, tid) == thread_before(threads@.take(n as int), tid),
        decreases n,
    {
        proof {
            assert(threads@.take(n as int).last() == threads@[n - 1]);
            assert(threads@.take(n as int).drop_last() =~= threads@.take(n - 1));
        }
        if threads[n - 1].tid == tid {
            return Some(n - 1);
        }
        n = n - 1;
    }
    None
}

fn order_threads(now: &Vec<ThreadCpuSnapshot>, before: &Vec<ThreadCpuSnapshot>) -> (r: Vec<
    ThreadCpuFrame,
>)
    ensures
        thread_frames(r@, now@, before@),
{
    let mut out: Vec<ThreadCpuFrame> = Vec::new();
    let ghost mut order: Seq<int> = Seq::empty();
    let mut i: usize = 0;
    while i < now.len()
        invariant
            i <= now@.len(),
            out@.len() == i,
            order.len() == i,
            order.no_duplicates(),
            forall|k: int|
                0 <= k < order.len() ==> 0 <= #[trigger] order[k] < i && is_thread_frame(
                    out@[k],
                    now@[order[k]],
                    before@,
                ),
            forall|a: int, b: int|
                #![trigger out@[a], out@[b]]
                0 <= a < b < out@.len() ==> thread_not_after(out@[a], out@[b]),
        decreases now@.len() - i,
    {
        let (user, system): (u64, u64) = match find_thread(before, now[i].tid) {
            Some(at) => (
                now[i].user_ns.saturating_sub(before[at].user_ns),
                now[i].system_ns.saturating_sub(before[at].system_ns),
            ),
            None => (0, 0),
        };
        let frame = ThreadCpuFrame {
            tid: now[i].tid,
            name: now[i].name.clone(),
            user_cpu_ns: user,
            system_cpu_ns: system,
        };
        let name = chars_of(frame.name.as_str());
        let ghost full = out@;
        let mut p: usize = out.len();
        let mut placed = false;
        while p > 0 && !placed
            invariant
                p <= out@.len(),
                out@ == full,
                name@ == frame.name@,
                forall|k: int|
                    p <= k < full.len() ==> thread_not_after(frame, #[trigger] full[k]),
                placed ==> p > 0 && thread_not_after(full[p - 1], frame),
            decreases
                    p + (if placed {
                        0int
                    } else {
                        1int
                    }),
        {
            let other = chars_of(out[p - 1].name.as_str());
            if text_less(name.as_slice(), other.as_slice()) || (same_chars(
                name.as_slice(),
                other.as_slice(),
            ) && frame.tid <= out[p - 1].tid) {
                p = p - 1;
            } else {
                proof {
                    lemma_text_lt_total(name@, other@);
                }
                placed = true;
            }
        }
        out.insert(p, frame);
        proof {
            let was = order;
            order = order.insert(p as int, i as int);
            assert forall|k: int| 0 <= k < order.len() implies 0 <= #[trigger] order[k] < i + 1
                && is_thread_frame(out@[k], now@[order[k]], before@) by {
                if k < p {
                    assert(order[k] == was[k] && out@[k] == full[k]);
                } else if k > p {
                    assert(order[k] == was[k - 1] && out@[k] == full[k - 1]);
                }
            }
            assert(order.no_duplicates()) by {
                assert forall|a: int, b: int|
                    0 <= a < order.len() && 0 <= b < order.len() && a != b implies order[a]
                    != order[b] by {
                    let x = if a < p {
                        a
                    } else {
                        a - 1
                    };
                    let y = if b < p {
                        b
                    } else {
                        b - 1
                    };
                    if a != p && b != p {
                        assert(was[x] != was[y]);
                    } else if a == p {
                        assert(was[y] < i);
                    } else {
                        assert(was[x] < i);
                    }
                }
            }
            assert forall|a: int, b: int|
                #![trigger out@[a], out@[b]]
                0 <= a < b < out@.len() implies thread_not_after(out@[a], out@[b]) by {
                if b < p {
                    assert(thread_not_after(full[a], full[b]));
                } else if b == p {
                    if a < p - 1 {
                        assert(thread_not_after(full[a], full[p - 1]));
                        lemma_threads_trans(full[a], full[p - 1], frame);
                    }
                } else if a < p {
                    assert(thread_not_after(full[a], full[b - 1]));
                } else if a == p {
                    assert(thread_not_after(frame, full[b - 1]));
                } else {
                    assert(thread_not_after(full[a - 1], full[b - 1]));
                }
            }
        }
        i = i + 1;
    }
    proof {
        assert(order.len() == now@.len());
    }
    out
}

proof fn lemma_threads_trans(a: ThreadCpuFrame, b: ThreadCpuFrame, c: ThreadCpuFrame)
    requires
        thread_not_after(a, b),
        thread_not_after(b, c),
    ensures
        thread_not_after(a, c),
{
    if text_lt(a.name@, b.name@) && text_lt(b.name@, c.name@) {
        lemma_text_lt_trans(a.name@, b.name@, c.name@);
    }
}

/// The sampler: what it read last, and whether that can be compared with.
pub struct Sampler {
    pub last: Reading,
    pub monitoring: bool,
    pub thread_sampling: bool,
}

/// Whether a frame tells what happened between two readings.
pub open spec fn frame_between(
    frame: SyscallsFrame,
    last: Reading,
    now: Reading,
    threads_compared: bool,
) -> bool {
    &&& frame.timestamp_ms == now.timestamp_ms
    &&& frame.active_sessions == now.active_sessions
    &&& frame.dataplane_tid == now.dataplane_tid
    &&& frame.sampled == now.sampled
    &&& frame.sample_window_ns == moved(now.at_ns, last.at_ns)
    &&& frame.process_cpu_ns == moved(now.process_cpu_ns, last.process_cpu_ns)
    &&& frame.process_user_cpu_ns == moved(now.process_user_ns, last.process_user_ns)
    &&& frame.process_system_cpu_ns == moved(now.process_system_ns, last.process_system_ns)
    &&& frame.dataplane_cpu_ns == (if threads_compared && now.dataplane_sequence
        != last.dataplane_sequence {
        moved(now.dataplane_cpu_ns, last.dataplane_cpu_ns)
    } else {
        0
    })
    &&& frame.io == io_moved(now.counters, last.counters)
    &&& frame.crypto_ops_s == moved(now.crypto_ops, last.crypto_ops)
    &&& frame.total_udp_rx_packets == now.counters.udp_rx_packets
    &&& frame.total_udp_tx_packets == now.counters.udp_tx_packets
    &&& frame.total_tun_rx_packets == now.counters.tun_rx_packets
    &&& frame.total_tun_tx_packets == now.counters.tun_tx_packets
    &&& thread_frames(frame.threads@, now.threads@, last.threads@)
}

impl Sampler {
    /// A sampler that nobody watches.
    pub fn new(first: Reading) -> (r: Self)
        ensures
            r.last == first,
            !r.monitoring,
            !r.thread_sampling,
    {
        Sampler { last: first, monitoring: false, thread_sampling: false }
    }

    /// Takes the reading of one second. With no watcher the earlier readings of the
    /// threads are forgotten and the rest is kept; the first reading of a watch only
    /// starts it; every further one gives a frame.
    pub fn tick(&mut self, watchers: usize, all_active: bool, now: Reading) -> (r: SampleStep)
        ensures
            ticked(*old(self), *final(self), watchers, all_active, now, r),
    {
        if watchers == 0 {
            self.monitoring = false;
            self.thread_sampling = false;
            self.last.threads = Vec::new();
            return SampleStep::Idle;
        }
        if !self.monitoring {
            self.monitoring = true;
            self.thread_sampling = all_active;
            self.last = now;
            return SampleStep::Started;
        }
        let dataplane: u64 = if self.thread_sampling && all_active && now.dataplane_sequence
            != self.last.dataplane_sequence {
            now.dataplane_cpu_ns.saturating_sub(self.last.dataplane_cpu_ns)
        } else {
            0
        };
        let frame = SyscallsFrame {
            timestamp_ms: now.timestamp_ms,
            active_sessions: now.active_sessions,
            dataplane_tid: now.dataplane_tid,
            sampled: now.sampled,
            sample_window_ns: now.at_ns.saturating_sub(self.last.at_ns),
            process_cpu_ns: now.process_cpu_ns.saturating_sub(self.last.process_cpu_ns),
            process_user_cpu_ns: now.process_user_ns.saturating_sub(self.last.process_user_ns),
            process_system_cpu_ns: now.process_system_ns.saturating_sub(
                self.last.process_system_ns,
            ),
            dataplane_cpu_ns: dataplane,
            threads: order_threads(&now.threads, &self.last.threads),
            io: io_difference(now.counters, self.last.counters),
            crypto_ops_s: now.crypto_ops.saturating_sub(self.last.crypto_ops),
            total_udp_rx_packets: now.counters.udp_rx_packets,
            total_udp_tx_packets: now.counters.udp_tx_packets,
            total_tun_rx_packets: now.counters.tun_rx_packets,
            total_tun_tx_packets: now.counters.tun_tx_packets,
        };
        self.thread_sampling = all_active;
        self.last = now;
        SampleStep::Frame(frame)
    }
}

/// What a counter moved by, added to where it stood, gives where it stands; a counter that
/// started over has not moved.
pub proof fn law_counters_move_forward(now: u64, before: u64)
    ensures
        now >= before ==> before + moved(now, before) == now,
        now < before ==> moved(now, before) == 0,
{
}

/// Every counter of a frame is the difference of that very counter; how many slots are free
/// and the largest batch are shown as they are.
pub proof fn law_every_counter_is_its_own_difference(now: IoCounters, before: IoCounters)
    ensures
        ({
            let d = io_moved(now, before);
            &&& now.udp_rx_packets >= before.udp_rx_packets ==> before.udp_rx_packets + d.udp_rx_packets == now.udp_rx_packets
            &&& now.udp_rx_bytes >= before.udp_rx_bytes ==> before.udp_rx_bytes + d.udp_rx_bytes == now.udp_rx_bytes
            &&& now.udp_rx_errors >= before.udp_rx_errors ==> before.udp_rx_errors + d.udp_rx_errors == now.udp_rx_errors
            &&& now.udp_tx_packets >= before.udp_tx_packets ==> before.udp_tx_packets + d.udp_tx_packets == now.udp_tx_packets
            &&& now.udp_tx_bytes >= before.udp_tx_bytes ==> before.udp_tx_bytes + d.udp_tx_bytes == now.udp_tx_bytes
            &&& now.udp_tx_errors >= before.udp_tx_errors ==> before.udp_tx_errors + d.udp_tx_errors == now.udp_tx_errors
            &&& now.udp_tx_drops >= before.udp_tx_drops ==> before.udp_tx_drops + d.udp_tx_drops == now.udp_tx_drops
            &&& now.tun_rx_packets >= before.tun_rx_packets ==> before.tun_rx_packets + d.tun_rx_packets == now.tun_rx_packets
            &&& now.tun_rx_bytes >= before.tun_rx_bytes ==> before.tun_rx_bytes + d.tun_rx_bytes == now.tun_rx_bytes
            &&& now.tun_rx_errors >= before.tun_rx_errors ==> before.tun_rx_errors + d.tun_rx_errors == now.tun_rx_errors
            &&& now.tun_tx_packets >= before.tun_tx_packets ==> before.tun_tx_packets + d.tun_tx_packets == now.tun_tx_packets
            &&& now.tun_tx_bytes >= before.tun_tx_bytes ==> before.tun_tx_bytes + d.tun_tx_bytes == now.tun_tx_bytes
            &&& now.tun_tx_errors >= before.tun_tx_errors ==> before.tun_tx_errors + d.tun_tx_errors == now.tun_tx_errors
            &&& now.tun_tx_drops >= before.tun_tx_drops ==> before.tun_tx_drops + d.tun_tx_drops == now.tun_tx_drops
            &&& now.readiness_wakeups >= before.readiness_wakeups ==> before.readiness_wakeups + d.readiness_wakeups == now.readiness_wakeups
            &&& now.udp_recv_syscalls >= before.udp_recv_syscalls ==> before.udp_recv_syscalls + d.udp_recv_syscalls == now.udp_recv_syscalls
            &&& now.udp_send_syscalls >= before.udp_send_syscalls ==> before.udp_send_syscalls + d.udp_send_syscalls == now.udp_send_syscalls
            &&& now.udp_rx_eagain >= before.udp_rx_eagain ==> before.udp_rx_eagain + d.udp_rx_eagain == now.udp_rx_eagain
            &&& now.udp_tx_eagain >= before.udp_tx_eagain ==> before.udp_tx_eagain + d.udp_tx_eagain == now.udp_tx_eagain
            &&& now.partial_sendmmsg >= before.partial_sendmmsg ==> before.partial_sendmmsg + d.partial_sendmmsg == now.partial_sendmmsg
            &&& now.udp_rx_enobufs >= before.udp_rx_enobufs ==> before.udp_rx_enobufs + d.udp_rx_enobufs == now.udp_rx_enobufs
            &&& now.udp_tx_enobufs >= before.udp_tx_enobufs ==> before.udp_tx_enobufs + d.udp_tx_enobufs == now.udp_tx_enobufs
            &&& now.udp_rx_packets < before.udp_rx_packets ==> d.udp_rx_packets == 0
            &&& now.udp_rx_bytes < before.udp_rx_bytes ==> d.udp_rx_bytes == 0
            &&& now.udp_rx_errors < before.udp_rx_errors ==> d.udp_rx_errors == 0
            &&& now.udp_tx_packets < before.udp_tx_packets ==> d.udp_tx_packets == 0
            &&& now.udp_tx_bytes < before.udp_tx_bytes ==> d.udp_tx_bytes == 0
            &&& now.udp_tx_errors < before.udp_tx_errors ==> d.udp_tx_errors == 0
            &&& now.udp_tx_drops < before.udp_tx_drops ==> d.udp_tx_drops == 0
            &&& now.tun_rx_packets < before.tun_rx_packets ==> d.tun_rx_packets == 0
            &&& now.tun_rx_bytes < before.tun_rx_bytes ==> d.tun_rx_bytes == 0
            &&& now.tun_rx_errors < before.tun_rx_errors ==> d.tun_rx_errors == 0
            &&& now.tun_tx_packets < before.tun_tx_packets ==> d.tun_tx_packets == 0
            &&& now.tun_tx_bytes < before.tun_tx_bytes ==> d.tun_tx_bytes == 0
            &&& now.tun_tx_errors < before.tun_tx_errors ==> d.tun_tx_errors == 0
            &&& now.tun_tx_drops < before.tun_tx_drops ==> d.tun_tx_drops == 0
            &&& now.readiness_wakeups < before.readiness_wakeups ==> d.readiness_wakeups == 0
            &&& now.udp_recv_syscalls < before.udp_recv_syscalls ==> d.udp_recv_syscalls == 0
            &&& now.udp_send_syscalls < before.udp_send_syscalls ==> d.udp_send_syscalls == 0
            &&& now.udp_rx_eagain < before.udp_rx_eagain ==> d.udp_rx_eagain == 0
            &&& now.udp_tx_eagain < before.udp_tx_eagain ==> d.udp_tx_eagain == 0
            &&& now.partial_sendmmsg < before.partial_sendmmsg ==> d.partial_sendmmsg == 0
            &&& now.udp_rx_enobufs < before.udp_rx_enobufs ==> d.udp_rx_enobufs == 0
            &&& now.udp_tx_enobufs < before.udp_tx_enobufs ==> d.udp_tx_enobufs == 0
            &&& d.free_udp_tx_slots == now.free_udp_tx_slots
            &&& d.free_tun_tx_slots == now.free_tun_tx_slots
            &&& d.udp_recv_batch_max == now.udp_recv_batch_max
        }),
{
}

/// A frame shows what happened between two readings: times as differences, totals and
/// samples as they are now, and the time of the data plane only where both readings have
/// it.
pub proof fn law_frame_lies_between_its_readings(
    frame: SyscallsFrame,
    last: Reading,
    now: Reading,
    threads_compared: bool,
)
    requires
        frame_between(frame, last, now, threads_compared),
        last.at_ns <= now.at_ns,
        last.process_cpu_ns <= now.process_cpu_ns,
        last.process_user_ns <= now.process_user_ns,
        last.process_system_ns <= now.process_system_ns,
        last.dataplane_cpu_ns <= now.dataplane_cpu_ns,
        last.crypto_ops <= now.crypto_ops,
    ensures
        frame.timestamp_ms == now.timestamp_ms,
        frame.active_sessions == now.active_sessions,
        frame.dataplane_tid == now.dataplane_tid,
        frame.sampled == now.sampled,
        last.at_ns + frame.sample_window_ns == now.at_ns,
        last.process_cpu_ns + frame.process_cpu_ns == now.process_cpu_ns,
        last.process_user_ns + frame.process_user_cpu_ns == now.process_user_ns,
        last.process_system_ns + frame.process_system_cpu_ns == now.process_system_ns,
        threads_compared && now.dataplane_sequence != last.dataplane_sequence
            ==> last.dataplane_cpu_ns + frame.dataplane_cpu_ns == now.dataplane_cpu_ns,
        !threads_compared || now.dataplane_sequence == last.dataplane_sequence
            ==> frame.dataplane_cpu_ns == 0,
        last.crypto_ops + frame.crypto_ops_s == now.crypto_ops,
        frame.total_udp_rx_packets == now.counters.udp_rx_packets,
        frame.total_udp_tx_packets == now.counters.udp_tx_packets,
        frame.total_tun_rx_packets == now.counters.tun_rx_packets,
        frame.total_tun_tx_packets == now.counters.tun_tx_packets,
        frame.threads@.len() == now.threads@.len(),
{
}

/// The threads of a frame stand in the order of their names, threads of one name in the
/// order of their numbers.
pub proof fn law_threads_are_ordered(
    frames: Seq<ThreadCpuFrame>,
    now: Seq<ThreadCpuSnapshot>,
    before: Seq<ThreadCpuSnapshot>,
    i: int,
    j: int,
)
    requires
        thread_frames(frames, now, before),
        0 <= i < frames.len(),
        0 <= j < frames.len(),
        text_lt(frames[i].name@, frames[j].name@) || (frames[i].name@ == frames[j].name@
            && frames[i].tid < frames[j].tid),
    ensures
        i < j,
{
    if j < i {
        assert(thread_not_after(frames[j], frames[i]));
        lemma_text_lt_total(frames[i].name@, frames[j].name@);
        if text_lt(frames[i].name@, frames[j].name@) && text_lt(frames[j].name@, frames[i].name@) {
            lemma_text_lt_trans(frames[i].name@, frames[j].name@, frames[i].name@);
        }
        lemma_text_lt_total(frames[j].name@, frames[i].name@);
    }
    if i == j {
        lemma_text_lt_total(frames[i].name@, frames[i].name@);
    }
}

/// A thread's times are what it used since the reading before; a thread that was not there
/// has used nothing yet.
pub proof fn law_thread_times_are_differences(
    frame: ThreadCpuFrame,
    now: ThreadCpuSnapshot,
    before: Seq<ThreadCpuSnapshot>,
    i: int,
)
    requires
        is_thread_frame(frame, now, before),
    ensures
        frame.tid == now.tid && frame.name@ == now.name@,
        0 <= i < before.len() && before[i].tid == now.tid && (forall|j: int|
            i < j < before.len() ==> (#[trigger] before[j]).tid != now.tid) && before[i].user_ns
            <= now.user_ns && before[i].system_ns <= now.system_ns ==> before[i].user_ns
            + frame.user_cpu_ns == now.user_ns && before[i].system_ns + frame.system_cpu_ns
            == now.system_ns,
        (forall|j: int| 0 <= j < before.len() ==> (#[trigger] before[j]).tid != now.tid)
            ==> frame.user_cpu_ns == 0 && frame.system_cpu_ns == 0,
{
    lemma_thread_before(before, now.tid, i);
}

proof fn lemma_thread_before(threads: Seq<ThreadCpuSnapshot>, tid: u32, i: int)
    ensures
        0 <= i < threads.len() && threads[i].tid == tid && (forall|j: int|
            i < j < threads.len() ==> (#[trigger] threads[j]).tid != tid) ==> thread_before(
            threads,
            tid,
        ) == Some(i),
        (forall|j: int| 0 <= j < threads.len() ==> (#[trigger] threads[j]).tid != tid)
            ==> thread_before(threads, tid) is None,
    decreases threads.len(),
{
    if threads.len() > 0 {
        let d = threads.drop_last();
        lemma_thread_before(d, tid, i);
        assert(threads.last() == threads[threads.len() - 1]);
        if 0 <= i < d.len() {
            assert(d[i] == threads[i]);
        }
    }
}

/// What the reading of one second does.
pub open spec fn ticked(
    before: Sampler,
    after: Sampler,
    watchers: usize,
    all_active: bool,
    now: Reading,
    r: SampleStep,
) -> bool {
    &&& watchers == 0 ==> r is Idle && !after.monitoring && !after.thread_sampling
        && after.last.threads@.len() == 0 && after.last == (Reading {
        threads: after.last.threads,
        ..before.last
    })
    &&& watchers > 0 ==> after.monitoring && after.thread_sampling == all_active && after.last
        == now
    &&& watchers > 0 && !before.monitoring ==> r is Started
    &&& watchers > 0 && before.monitoring ==> r is Frame && frame_between(
        r->Frame_0,
        before.last,
        now,
        before.thread_sampling && all_active,
    )
}

/// Two readings in a row that are watched give a frame of what lies between them; the first
/// that is watched only starts, and without a watcher nothing is shown.
pub proof fn law_frames_need_two_readings(
    a: Sampler,
    b: Sampler,
    c: Sampler,
    watchers: usize,
    all_active: bool,
    first: Reading,
    second: Reading,
    r1: SampleStep,
    r2: SampleStep,
)
    requires
        watchers > 0,
        !a.monitoring,
        ticked(a, b, watchers, all_active, first, r1),
        ticked(b, c, watchers, all_active, second, r2),
        first.crypto_ops <= second.crypto_ops,
        first.at_ns <= second.at_ns,
    ensures
        r1 is Started,
        r2 matches SampleStep::Frame(f) && f.timestamp_ms == second.timestamp_ms && first.at_ns
            + f.sample_window_ns == second.at_ns && first.crypto_ops + f.crypto_ops_s
            == second.crypto_ops,
        c.last == second,
{
}

/// Without a watcher the sampler is idle, and the next watch starts anew.
pub proof fn law_unwatched_samplers_are_idle(
    a: Sampler,
    b: Sampler,
    all_active: bool,
    now: Reading,
    r: SampleStep,
)
    requires
        ticked(a, b, 0, all_active, now, r),
    ensures
        r is Idle,
        !b.monitoring,
        b.last.threads@.len() == 0,
        b.last.counters == a.last.counters,
{
}

} // verus!
