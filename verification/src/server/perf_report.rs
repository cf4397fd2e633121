//! The profile of the packet loop that the server prints about itself.
//!
//! Rates and shares are computed and rounded by the caller, who hands them over as text.
use vstd::prelude::*;
use crate::server::report::{
    first_part, last_part, lemma_shown, next_part, pad_left, pad_right, padded_right, push_left,
    push_left_number, push_number,
};
use crate::text::{chars_of, contains_text, dec, occurs_at, push_chars, push_text, string_of};

verus! {

/// The figures of one stage: operations in a second, nanoseconds for each, and the share of
/// a processor.
#[derive(Debug)]
pub struct PerfRow {
    pub per_second: String,
    pub per_operation: String,
    pub share: String,
}

/// The figures of a stage that is sampled.
#[derive(Debug)]
pub struct SampledRow {
    pub figures: PerfRow,
    pub samples: u64,
}

/// A thread, its processor time, and that as shares of a processor.
#[derive(Debug)]
pub struct PerfThread {
    pub tid: u32,
    pub name: String,
    pub user_cpu_ns: u64,
    pub system_cpu_ns: u64,
    pub total_share: String,
    pub user_share: String,
    pub system_share: String,
}

/// What happened within one second.
#[derive(Debug)]
pub struct PerfFrame {
    pub active_sessions: u64,
    pub udp_rx_pps: u64,
    pub udp_tx_pps: u64,
    pub tun_rx_pps: u64,
    pub tun_tx_pps: u64,
    pub all_sample_interval: u64,
    pub readiness_wakeups_s: u64,
    pub recv_syscalls_s: u64,
    pub send_syscalls_s: u64,
    pub recv_batch_max: u64,
    pub rx_eagain_s: u64,
    pub tx_eagain_s: u64,
    pub partial_sendmmsg_s: u64,
    pub udp_rx_enobufs_s: u64,
    pub udp_tx_enobufs_s: u64,
    pub udp_rx_errors_s: u64,
    pub udp_tx_errors_s: u64,
    pub tun_rx_errors_s: u64,
    pub tun_tx_errors_s: u64,
    pub udp_tx_drops_s: u64,
    pub tun_tx_drops_s: u64,
    pub dispatch: SampledRow,
    pub flush: SampledRow,
    pub bookkeeping: SampledRow,
    pub sampled_share: String,
    pub dataplane_share: String,
    pub process_share: String,
    pub user_share: String,
    pub system_share: String,
    pub other_threads_share: String,
    pub unattributed_share: String,
    pub threads: Vec<PerfThread>,
    pub sampling_biased: bool,
    pub udp_rx: SampledRow,
    pub unwrap: PerfRow,
    pub route_replay: SampledRow,
    pub tun_write: SampledRow,
    pub tun_rx: SampledRow,
    pub wrap: PerfRow,
    pub udp_queue: PerfRow,
}

/// Processor time of one thread.
pub open spec fn thread_ns(user_ns: u64, system_ns: u64) -> nat {
    if user_ns + system_ns > u64::MAX {
        u64::MAX as nat
    } else {
        (user_ns + system_ns) as nat
    }
}

/// Processor time of the threads together, as far as it can be counted.
pub open spec fn threads_ns(threads: Seq<PerfThread>) -> nat
    decreases threads.len(),
{
    if threads.len() == 0 {
        0
    } else {
        let sum = threads_ns(threads.drop_last()) + thread_ns(
            threads.last().user_cpu_ns,
            threads.last().system_cpu_ns,
        );
        if sum > u64::MAX {
            u64::MAX as nat
        } else {
            sum
        }
    }
}

/// Processor time of the first thread with a number; zero if there is none.
pub open spec fn time_of_thread(threads: Seq<PerfThread>, tid: u32) -> nat
    decreases threads.len(),
{
    if threads.len() == 0 {
        0
    } else if threads[0].tid == tid {
        thread_ns(threads[0].user_cpu_ns, threads[0].system_cpu_ns)
    } else {
        time_of_thread(threads.drop_first(), tid)
    }
}

/// What is left of `a` without `b`.
pub open spec fn left_of(a: nat, b: nat) -> nat {
    if a < b {
        0
    } else {
        (a - b) as nat
    }
}

/// The processor time of all threads but the packet loop's, and that of the process that no
/// thread accounts for.
pub fn thread_shares(threads: &Vec<PerfThread>, dataplane_tid: u32, process_cpu_ns: u64) -> (r: (
    u64,
    u64,
))
    ensures
        r.0 == left_of(threads_ns(threads@), time_of_thread(threads@, dataplane_tid)),
        r.1 == left_of(process_cpu_ns as nat, threads_ns(threads@)),
{
    let mut total: u64 = 0;
    let mut i: usize = 0;
    while i < threads.len()
        invariant
            i <= threads@.len(),
            total == threads_ns(threads@.take(i as int)),
        decreases threads@.len() - i,
    {
        proof {
            let t = threads@.take(i as int + 1);
            assert(t.drop_last() =~= threads@.take(i as int));
            assert(t.last() == threads@[i as int]);
        }
        let one: u64 = threads[i].user_cpu_ns.saturating_add(threads[i].system_cpu_ns);
        total = total.saturating_add(one);
        i = i + 1;
    }
    proof {
        assert(threads@.take(i as int) =~= threads@);
    }
    let mut dataplane: u64 = 0;
    let mut k: usize = 0;
    proof {
        assert(threads@.skip(0) =~= threads@);
    }
    while k < threads.len()
        invariant_except_break
            k <= threads@.len(),
            dataplane == 0,
            time_of_thread(threads@, dataplane_tid) == time_of_thread(
                threads@.skip(k as int),
                dataplane_tid,
            ),
        ensures
            dataplane == time_of_thread(threads@, dataplane_tid),
        decreases threads@.len() - k,
    {
        proof {
            let s = threads@.skip(k as int);
            assert(s[0] == threads@[k as int]);
            assert(s.drop_first() =~= threads@.skip(k as int + 1));
        }
        if threads[k].tid == dataplane_tid {
            dataplane = threads[k].user_cpu_ns.saturating_add(threads[k].system_cpu_ns);
            break;
        }
        k = k + 1;
    }
    (total.saturating_sub(dataplane), process_cpu_ns.saturating_sub(total))
}

/// The line of a stage without its end.
pub open spec fn stage_line(name: Seq<char>, row: PerfRow) -> Seq<char> {
    pad_right(name, 24) + " "@ + pad_left(row.per_second@, 9) + " оп/с  "@ + pad_left(
        row.per_operation@,
        9,
    ) + " нс/оп  "@ + pad_left(row.share@, 7) + "% ядра  "@
}

fn stage_line_chars(name: &str, row: &PerfRow) -> (r: Vec<char>)
    ensures
        r@ == stage_line(name@, *row),
{
    let mut out = padded_right(name, 24);
    push_text(&mut out, " ");
    push_left(&mut out, row.per_second.as_str(), 9);
    push_text(&mut out, " оп/с  ");
    push_left(&mut out, row.per_operation.as_str(), 9);
    push_text(&mut out, " нс/оп  ");
    push_left(&mut out, row.share.as_str(), 7);
    push_text(&mut out, "% ядра  ");
    out
}

/// The line of a stage that is sampled.
pub open spec fn sampled_line(name: Seq<char>, row: SampledRow) -> Seq<char> {
    stage_line(name, row.figures) + "выборок: "@ + dec(row.samples as nat) + "\n"@
}

/// The line of a stage whose figures follow from others.
pub open spec fn derived_line(name: Seq<char>, row: PerfRow) -> Seq<char> {
    stage_line(name, row) + "расчёт\n"@
}

fn write_all_perf_row(out: &mut Vec<char>, name: &str, row: &SampledRow)
    ensures
        final(out)@ == old(out)@ + sampled_line(name@, *row),
{
    let mut line = stage_line_chars(name, &row.figures);
    push_text(&mut line, "выборок: ");
    push_number(&mut line, row.samples);
    push_text(&mut line, "\n");
    push_chars(out, line.as_slice());
}

fn write_derived_perf_row(out: &mut Vec<char>, name: &str, row: &PerfRow)
    ensures
        final(out)@ == old(out)@ + derived_line(name@, *row),
{
    let mut line = stage_line_chars(name, row);
    push_text(&mut line, "расчёт\n");
    push_chars(out, line.as_slice());
}

/// The head of the profile.
pub open spec fn perf_head(f: PerfFrame) -> Seq<char> {
    "CSQTT PERF ALL — профиль dataplane за последнюю секунду\nСессий: "@
        + dec(f.active_sessions as nat)
        + " · UDP RX/TX: "@
        + dec(f.udp_rx_pps as nat)
        + "/"@
        + dec(f.udp_tx_pps as nat)
        + " pps · TUN RX/TX: "@
        + dec(f.tun_rx_pps as nat)
        + "/"@
        + dec(f.tun_tx_pps as nat)
        + " pps · выборка 1/"@
        + dec(f.all_sample_interval as nat)
        + "\n\nepoll wakeups: "@
        + dec(f.readiness_wakeups_s as nat)
        + "/с · recvmmsg: "@
        + dec(f.recv_syscalls_s as nat)
        + "/с · sendmmsg: "@
        + dec(f.send_syscalls_s as nat)
        + "/с · макс батч: "@
        + dec(f.recv_batch_max as nat)
        + "\n\nEAGAIN RX/TX: "@
        + dec(f.rx_eagain_s as nat)
        + "/"@
        + dec(f.tx_eagain_s as nat)
        + " · частичных sendmmsg: +"@
        + dec(f.partial_sendmmsg_s as nat)
        + "/с · ENOBUFS RX/TX: "@
        + dec(f.udp_rx_enobufs_s as nat)
        + "/"@
        + dec(f.udp_tx_enobufs_s as nat)
        + "\n\nI/O ошибки: UDP RX/TX "@
        + dec(f.udp_rx_errors_s as nat)
        + "/"@
        + dec(f.udp_tx_errors_s as nat)
        + " · TUN RX/TX "@
        + dec(f.tun_rx_errors_s as nat)
        + "/"@
        + dec(f.tun_tx_errors_s as nat)
        + " · drops UDP/TUN "@
        + dec(f.udp_tx_drops_s as nat)
        + "/"@
        + dec(f.tun_tx_drops_s as nat)
        + "\n\nВерхний уровень, независимая sampled-оценка:\n"@
}

fn perf_head_chars(f: &PerfFrame) -> (r: Vec<char>)
    ensures
        r@ == perf_head(*f),
{
    let mut out = chars_of("CSQTT PERF ALL — профиль dataplane за последнюю секунду\nСессий: ");
    push_number(&mut out, f.active_sessions as u64);
    push_text(&mut out, " · UDP RX/TX: ");
    push_number(&mut out, f.udp_rx_pps as u64);
    push_text(&mut out, "/");
    push_number(&mut out, f.udp_tx_pps as u64);
    push_text(&mut out, " pps · TUN RX/TX: ");
    push_number(&mut out, f.tun_rx_pps as u64);
    push_text(&mut out, "/");
    push_number(&mut out, f.tun_tx_pps as u64);
    push_text(&mut out, " pps · выборка 1/");
    push_number(&mut out, f.all_sample_interval as u64);
    push_text(&mut out, "\n\nepoll wakeups: ");
    push_number(&mut out, f.readiness_wakeups_s as u64);
    push_text(&mut out, "/с · recvmmsg: ");
    push_number(&mut out, f.recv_syscalls_s as u64);
    push_text(&mut out, "/с · sendmmsg: ");
    push_number(&mut out, f.send_syscalls_s as u64);
    push_text(&mut out, "/с · макс батч: ");
    push_number(&mut out, f.recv_batch_max as u64);
    push_text(&mut out, "\n\nEAGAIN RX/TX: ");
    push_number(&mut out, f.rx_eagain_s as u64);
    push_text(&mut out, "/");
    push_number(&mut out, f.tx_eagain_s as u64);
    push_text(&mut out, " · частичных sendmmsg: +");
    push_number(&mut out, f.partial_sendmmsg_s as u64);
    push_text(&mut out, "/с · ENOBUFS RX/TX: ");
    push_number(&mut out, f.udp_rx_enobufs_s as u64);
    push_text(&mut out, "/");
    push_number(&mut out, f.udp_tx_enobufs_s as u64);
    push_text(&mut out, "\n\nI/O ошибки: UDP RX/TX ");
    push_number(&mut out, f.udp_rx_errors_s as u64);
    push_text(&mut out, "/");
    push_number(&mut out, f.udp_tx_errors_s as u64);
    push_text(&mut out, " · TUN RX/TX ");
    push_number(&mut out, f.tun_rx_errors_s as u64);
    push_text(&mut out, "/");
    push_number(&mut out, f.tun_tx_errors_s as u64);
    push_text(&mut out, " · drops UDP/TUN ");
    push_number(&mut out, f.udp_tx_drops_s as u64);
    push_text(&mut out, "/");
    push_number(&mut out, f.tun_tx_drops_s as u64);
    push_text(&mut out, "\n\nВерхний уровень, независимая sampled-оценка:\n");
    out
}

/// The totals of the profile.
pub open spec fn perf_totals(f: PerfFrame) -> Seq<char> {
    "СУММА SAMPLED СТАДИЙ     "@
        + pad_left(f.sampled_share@, 31)
        + "% ядра\nDATAPLANE THREAD ТОЧНО   "@
        + pad_left(f.dataplane_share@, 31)
        + "% ядра\nПРОЦЕСС CSQTT ТОЧНО      "@
        + pad_left(f.process_share@, 31)
        + "% ядра\nПРОЦЕСС CPU SPLIT        "@
        + pad_left(f.user_share@, 20)
        + "% user · "@
        + pad_left(f.system_share@, 6)
        + "% system\nПРОЧИЕ ПОТОКИ CSQTT      "@
        + pad_left(f.other_threads_share@, 31)
        + "% ядра\nНЕ АТРИБУТИРОВАНО /PROC  "@
        + pad_left(f.unattributed_share@, 31)
        + "% ядра\n\n"@
}

fn perf_totals_chars(f: &PerfFrame) -> (r: Vec<char>)
    ensures
        r@ == perf_totals(*f),
{
    let mut out = chars_of("СУММА SAMPLED СТАДИЙ     ");
    push_left(&mut out, f.sampled_share.as_str(), 31);
    push_text(&mut out, "% ядра\nDATAPLANE THREAD ТОЧНО   ");
    push_left(&mut out, f.dataplane_share.as_str(), 31);
    push_text(&mut out, "% ядра\nПРОЦЕСС CSQTT ТОЧНО      ");
    push_left(&mut out, f.process_share.as_str(), 31);
    push_text(&mut out, "% ядра\nПРОЦЕСС CPU SPLIT        ");
    push_left(&mut out, f.user_share.as_str(), 20);
    push_text(&mut out, "% user · ");
    push_left(&mut out, f.system_share.as_str(), 6);
    push_text(&mut out, "% system\nПРОЧИЕ ПОТОКИ CSQTT      ");
    push_left(&mut out, f.other_threads_share.as_str(), 31);
    push_text(&mut out, "% ядра\nНЕ АТРИБУТИРОВАНО /PROC  ");
    push_left(&mut out, f.unattributed_share.as_str(), 31);
    push_text(&mut out, "% ядра\n\n");
    out
}

/// The line of one thread.
pub open spec fn thread_line(t: PerfThread) -> Seq<char> {
    pad_right(t.name@, 18)
        + " tid "@
        + pad_left(dec(t.tid as nat), 7)
        + " "@
        + pad_left(t.total_share@, 7)
        + "% · "@
        + pad_left(t.user_share@, 6)
        + "% user · "@
        + pad_left(t.system_share@, 6)
        + "% system\n"@
}

fn thread_line_chars(t: &PerfThread) -> (r: Vec<char>)
    ensures
        r@ == thread_line(*t),
{
    let mut out = padded_right(t.name.as_str(), 18);
    push_text(&mut out, " tid ");
    push_left_number(&mut out, t.tid as u64, 7);
    push_text(&mut out, " ");
    push_left(&mut out, t.total_share.as_str(), 7);
    push_text(&mut out, "% · ");
    push_left(&mut out, t.user_share.as_str(), 6);
    push_text(&mut out, "% user · ");
    push_left(&mut out, t.system_share.as_str(), 6);
    push_text(&mut out, "% system\n");
    out
}

/// Threads that are shown.
pub const THREAD_LINES: usize = 16;

/// The lines of the first `n` threads.
pub open spec fn thread_lines(threads: Seq<PerfThread>, n: nat) -> Seq<char>
    decreases n,
{
    if n == 0 {
        Seq::empty()
    } else {
        thread_lines(threads, (n - 1) as nat) + thread_line(threads[n - 1])
    }
}

/// The section on threads.
pub open spec fn threads_part(threads: Seq<PerfThread>) -> Seq<char> {
    if threads.len() == 0 {
        Seq::empty()
    } else if threads.len() > THREAD_LINES {
        "Стабильная разбивка живых потоков по /proc:\n"@ + thread_lines(
            threads,
            THREAD_LINES as nat,
        ) + "ещё потоков: "@ + dec((threads.len() - THREAD_LINES) as nat) + "\n\n"@
    } else {
        "Стабильная разбивка живых потоков по /proc:\n"@ + thread_lines(threads, threads.len())
            + "\n"@
    }
}

fn threads_part_chars(threads: &Vec<PerfThread>) -> (r: Vec<char>)
    ensures
        r@ == threads_part(threads@),
{
    let mut lines: Vec<char> = Vec::new();
    proof {
        assert(lines@ =~= Seq::<char>::empty());
    }
    if threads.len() == 0 {
        return lines;
    }
    let n: usize = if threads.len() < THREAD_LINES {
        threads.len()
    } else {
        THREAD_LINES
    };
    let mut i: usize = 0;
    while i < n
        invariant
            i <= n <= threads@.len(),
            lines@ == thread_lines(threads@, i as nat),
        decreases n - i,
    {
        let line = thread_line_chars(&threads[i]);
        push_chars(&mut lines, line.as_slice());
        i = i + 1;
    }
    let mut out = chars_of("Стабильная разбивка живых потоков по /proc:\n");
    push_chars(&mut out, lines.as_slice());
    if threads.len() > THREAD_LINES {
        push_text(&mut out, "ещё потоков: ");
        push_number(&mut out, (threads.len() - THREAD_LINES) as u64);
        push_text(&mut out, "\n\n");
    } else {
        push_text(&mut out, "\n");
    }
    out
}

/// The whole profile.
pub open spec fn perf_report(frame: PerfFrame) -> Seq<char> {
    perf_head(frame)
        + sampled_line("Dispatch (всего)"@, frame.dispatch)
        + sampled_line("sendmmsg/flush"@, frame.flush)
        + sampled_line("loop bookkeeping"@, frame.bookkeeping)
        + perf_totals(frame)
        + threads_part(frame.threads@)
        + (if frame.sampling_biased {
        "Sampled-оценка смещена периодической выборкой; для итога используй точные строки процесса и потоков.\n\n"@
    } else {
        ""@
    })
        + "\nПриблизительная sampled-атрибуция внутри Dispatch:\n"@
        + sampled_line("UDP RX overhead"@, frame.udp_rx)
        + derived_line("parse+unwrap+crypto"@, frame.unwrap)
        + sampled_line("route/replay"@, frame.route_replay)
        + sampled_line("TUN write"@, frame.tun_write)
        + sampled_line("TUN RX overhead"@, frame.tun_rx)
        + derived_line("prepare+wrap+crypto"@, frame.wrap)
        + derived_line("UDP queue inclusive"@, frame.udp_queue)
        + "\nВнутренние строки sampled независимо и не складываются в точный итог. Истинный общий расход показывает «DATAPLANE THREAD ТОЧНО»; CPU ожидания не включает wall-сон.\n"@
}

/// Writes the whole profile.
pub fn render_perf_all(frame: &PerfFrame) -> (r: String)
    ensures
        r@ == perf_report(*frame),
{
    let mut out = perf_head_chars(frame);
    write_all_perf_row(&mut out, "Dispatch (всего)", &frame.dispatch);
    write_all_perf_row(&mut out, "sendmmsg/flush", &frame.flush);
    write_all_perf_row(&mut out, "loop bookkeeping", &frame.bookkeeping);
    let totals = perf_totals_chars(frame);
    push_chars(&mut out, totals.as_slice());
    let threads = threads_part_chars(&frame.threads);
    push_chars(&mut out, threads.as_slice());
    if frame.sampling_biased {
        push_text(&mut out, "Sampled-оценка смещена периодической выборкой; для итога используй точные строки процесса и потоков.\n\n");
    } else {
        push_text(&mut out, "");
    }
    push_text(&mut out, "\nПриблизительная sampled-атрибуция внутри Dispatch:\n");
    write_all_perf_row(&mut out, "UDP RX overhead", &frame.udp_rx);
    write_derived_perf_row(&mut out, "parse+unwrap+crypto", &frame.unwrap);
    write_all_perf_row(&mut out, "route/replay", &frame.route_replay);
    write_all_perf_row(&mut out, "TUN write", &frame.tun_write);
    write_all_perf_row(&mut out, "TUN RX overhead", &frame.tun_rx);
    write_derived_perf_row(&mut out, "prepare+wrap+crypto", &frame.wrap);
    write_derived_perf_row(&mut out, "UDP queue inclusive", &frame.udp_queue);
    push_text(&mut out, "\nВнутренние строки sampled независимо и не складываются в точный итог. Истинный общий расход показывает «DATAPLANE THREAD ТОЧНО»; CPU ожидания не включает wall-сон.\n");
    string_of(out.as_slice())
}

/// The figures of a stage stand in columns, each before its unit.
pub proof fn law_stage_figures_have_units(name: Seq<char>, row: PerfRow)
    ensures
        contains_text(
            stage_line(name, row),
            pad_right(name, 24)
                + " "@
                + pad_left(row.per_second@, 9)
                + " оп/с  "@
                + pad_left( row.per_operation@, 9, )
                + " нс/оп  "@
                + pad_left(row.share@, 7)
                + "% ядра  "@,
        ),
{
    let (s, line) = first_part(pad_right(name, 24));
    let (s, line) = next_part(s, line, " "@);
    let (s, line) = next_part(s, line, pad_left(row.per_second@, 9));
    let (s, line) = next_part(s, line, " оп/с  "@);
    let (s, line) = next_part(s, line, pad_left( row.per_operation@, 9, ));
    let (s, line) = next_part(s, line, " нс/оп  "@);
    let (s, line) = next_part(s, line, pad_left(row.share@, 7));
    let (s, line) = last_part(s, line, "% ядра  "@);
    lemma_shown(s);
}

/// Every rate at the head of the profile stands behind its label.
pub proof fn law_rates_have_labels(f: PerfFrame)
    ensures
        contains_text(
            perf_head(f),
            "CSQTT PERF ALL — профиль dataplane за последнюю секунду\nСессий: "@
                + dec(f.active_sessions as nat)
                + " · UDP RX/TX: "@
                + dec(f.udp_rx_pps as nat)
                + "/"@
                + dec(f.udp_tx_pps as nat)
                + " pps · TUN RX/TX: "@
                + dec(f.tun_rx_pps as nat)
                + "/"@
                + dec(f.tun_tx_pps as nat)
                + " pps · выборка 1/"@
                + dec(f.all_sample_interval as nat)
                + "\n\nepoll wakeups: "@,
        ),
        contains_text(
            perf_head(f),
            "\n\nepoll wakeups: "@
                + dec(f.readiness_wakeups_s as nat)
                + "/с · recvmmsg: "@
                + dec(f.recv_syscalls_s as nat)
                + "/с · sendmmsg: "@
                + dec(f.send_syscalls_s as nat)
                + "/с · макс батч: "@
                + dec(f.recv_batch_max as nat)
                + "\n\nEAGAIN RX/TX: "@,
        ),
        contains_text(
            perf_head(f),
            "\n\nEAGAIN RX/TX: "@
                + dec(f.rx_eagain_s as nat)
                + "/"@
                + dec(f.tx_eagain_s as nat)
                + " · частичных sendmmsg: +"@
                + dec(f.partial_sendmmsg_s as nat)
                + "/с · ENOBUFS RX/TX: "@
                + dec(f.udp_rx_enobufs_s as nat)
                + "/"@
                + dec(f.udp_tx_enobufs_s as nat)
                + "\n\nI/O ошибки: UDP RX/TX "@,
        ),
        contains_text(
            perf_head(f),
            "\n\nI/O ошибки: UDP RX/TX "@
                + dec(f.udp_rx_errors_s as nat)
                + "/"@
                + dec(f.udp_tx_errors_s as nat)
                + " · TUN RX/TX "@
                + dec(f.tun_rx_errors_s as nat)
                + "/"@
                + dec(f.tun_tx_errors_s as nat)
                + " · drops UDP/TUN "@
                + dec(f.udp_tx_drops_s as nat)
                + "/"@
                + dec(f.tun_tx_drops_s as nat)
                + "\n\nВерхний уровень, независимая sampled-оценка:\n"@,
        ),
{
    let (s, line) = first_part("CSQTT PERF ALL — профиль dataplane за последнюю секунду\nСессий: "@);
    let (s, line) = next_part(s, line, dec(f.active_sessions as nat));
    let (s, line) = next_part(s, line, " · UDP RX/TX: "@);
    let (s, line) = next_part(s, line, dec(f.udp_rx_pps as nat));
    let (s, line) = next_part(s, line, "/"@);
    let (s, line) = next_part(s, line, dec(f.udp_tx_pps as nat));
    let (s, line) = next_part(s, line, " pps · TUN RX/TX: "@);
    let (s, line) = next_part(s, line, dec(f.tun_rx_pps as nat));
    let (s, line) = next_part(s, line, "/"@);
    let (s, line) = next_part(s, line, dec(f.tun_tx_pps as nat));
    let (s, line) = next_part(s, line, " pps · выборка 1/"@);
    let (s, line) = next_part(s, line, dec(f.all_sample_interval as nat));
    let (s, line) = last_part(s, line, "\n\nepoll wakeups: "@);
    let (s, line) = next_part(s, line, dec(f.readiness_wakeups_s as nat));
    let (s, line) = next_part(s, line, "/с · recvmmsg: "@);
    let (s, line) = next_part(s, line, dec(f.recv_syscalls_s as nat));
    let (s, line) = next_part(s, line, "/с · sendmmsg: "@);
    let (s, line) = next_part(s, line, dec(f.send_syscalls_s as nat));
    let (s, line) = next_part(s, line, "/с · макс батч: "@);
    let (s, line) = next_part(s, line, dec(f.recv_batch_max as nat));
    let (s, line) = last_part(s, line, "\n\nEAGAIN RX/TX: "@);
    let (s, line) = next_part(s, line, dec(f.rx_eagain_s as nat));
    let (s, line) = next_part(s, line, "/"@);
    let (s, line) = next_part(s, line, dec(f.tx_eagain_s as nat));
    let (s, line) = next_part(s, line, " · частичных sendmmsg: +"@);
    let (s, line) = next_part(s, line, dec(f.partial_sendmmsg_s as nat));
    let (s, line) = next_part(s, line, "/с · ENOBUFS RX/TX: "@);
    let (s, line) = next_part(s, line, dec(f.udp_rx_enobufs_s as nat));
    let (s, line) = next_part(s, line, "/"@);
    let (s, line) = next_part(s, line, dec(f.udp_tx_enobufs_s as nat));
    let (s, line) = last_part(s, line, "\n\nI/O ошибки: UDP RX/TX "@);
    let (s, line) = next_part(s, line, dec(f.udp_rx_errors_s as nat));
    let (s, line) = next_part(s, line, "/"@);
    let (s, line) = next_part(s, line, dec(f.udp_tx_errors_s as nat));
    let (s, line) = next_part(s, line, " · TUN RX/TX "@);
    let (s, line) = next_part(s, line, dec(f.tun_rx_errors_s as nat));
    let (s, line) = next_part(s, line, "/"@);
    let (s, line) = next_part(s, line, dec(f.tun_tx_errors_s as nat));
    let (s, line) = next_part(s, line, " · drops UDP/TUN "@);
    let (s, line) = next_part(s, line, dec(f.udp_tx_drops_s as nat));
    let (s, line) = next_part(s, line, "/"@);
    let (s, line) = next_part(s, line, dec(f.tun_tx_drops_s as nat));
    let (s, line) = last_part(s, line, "\n\nВерхний уровень, независимая sampled-оценка:\n"@);
    lemma_shown(s);
}

/// Every share of the processor stands behind its label.
pub proof fn law_shares_have_labels(f: PerfFrame)
    ensures
        contains_text(
            perf_totals(f),
            "СУММА SAMPLED СТАДИЙ     "@
                + pad_left(f.sampled_share@, 31)
                + "% ядра\nDATAPLANE THREAD ТОЧНО   "@,
        ),
        contains_text(
            perf_totals(f),
            "% ядра\nDATAPLANE THREAD ТОЧНО   "@
                + pad_left(f.dataplane_share@, 31)
                + "% ядра\nПРОЦЕСС CSQTT ТОЧНО      "@,
        ),
        contains_text(
            perf_totals(f),
            "% ядра\nПРОЦЕСС CSQTT ТОЧНО      "@
                + pad_left(f.process_share@, 31)
                + "% ядра\nПРОЦЕСС CPU SPLIT        "@,
        ),
        contains_text(
            perf_totals(f),
            "% ядра\nПРОЦЕСС CPU SPLIT        "@
                + pad_left(f.user_share@, 20)
                + "% user · "@
                + pad_left(f.system_share@, 6)
                + "% system\nПРОЧИЕ ПОТОКИ CSQTT      "@,
        ),
        contains_text(
            perf_totals(f),
            "% system\nПРОЧИЕ ПОТОКИ CSQTT      "@
                + pad_left(f.other_threads_share@, 31)
                + "% ядра\nНЕ АТРИБУТИРОВАНО /PROC  "@,
        ),
        contains_text(
            perf_totals(f),
            "% ядра\nНЕ АТРИБУТИРОВАНО /PROC  "@
                + pad_left(f.unattributed_share@, 31)
                + "% ядра\n\n"@,
        ),
{
    let (s, line) = first_part("СУММА SAMPLED СТАДИЙ     "@);
    let (s, line) = next_part(s, line, pad_left(f.sampled_share@, 31));
    let (s, line) = last_part(s, line, "% ядра\nDATAPLANE THREAD ТОЧНО   "@);
    let (s, line) = next_part(s, line, pad_left(f.dataplane_share@, 31));
    let (s, line) = last_part(s, line, "% ядра\nПРОЦЕСС CSQTT ТОЧНО      "@);
    let (s, line) = next_part(s, line, pad_left(f.process_share@, 31));
    let (s, line) = last_part(s, line, "% ядра\nПРОЦЕСС CPU SPLIT        "@);
    let (s, line) = next_part(s, line, pad_left(f.user_share@, 20));
    let (s, line) = next_part(s, line, "% user · "@);
    let (s, line) = next_part(s, line, pad_left(f.system_share@, 6));
    let (s, line) = last_part(s, line, "% system\nПРОЧИЕ ПОТОКИ CSQTT      "@);
    let (s, line) = next_part(s, line, pad_left(f.other_threads_share@, 31));
    let (s, line) = last_part(s, line, "% ядра\nНЕ АТРИБУТИРОВАНО /PROC  "@);
    let (s, line) = next_part(s, line, pad_left(f.unattributed_share@, 31));
    let (s, line) = last_part(s, line, "% ядра\n\n"@);
    lemma_shown(s);
}

/// The figures of a thread stand in columns, each before its unit.
pub proof fn law_thread_figures_have_units(t: PerfThread)
    ensures
        contains_text(
            thread_line(t),
            pad_right(t.name@, 18)
                + " tid "@
                + pad_left(dec(t.tid as nat), 7)
                + " "@
                + pad_left(t.total_share@, 7)
                + "% · "@
                + pad_left(t.user_share@, 6)
                + "% user · "@
                + pad_left(t.system_share@, 6)
                + "% system\n"@,
        ),
{
    let (s, line) = first_part(pad_right(t.name@, 18));
    let (s, line) = next_part(s, line, " tid "@);
    let (s, line) = next_part(s, line, pad_left(dec(t.tid as nat), 7));
    let (s, line) = next_part(s, line, " "@);
    let (s, line) = next_part(s, line, pad_left(t.total_share@, 7));
    let (s, line) = next_part(s, line, "% · "@);
    let (s, line) = next_part(s, line, pad_left(t.user_share@, 6));
    let (s, line) = next_part(s, line, "% user · "@);
    let (s, line) = next_part(s, line, pad_left(t.system_share@, 6));
    let (s, line) = last_part(s, line, "% system\n"@);
    lemma_shown(s);
}

/// The sections of the profile follow each other, and every stage stands behind its name.
pub proof fn law_profile_sections_follow_each_other(frame: PerfFrame)
    ensures
        contains_text(
            perf_report(frame),
            perf_head(frame)
                + sampled_line("Dispatch (всего)"@, frame.dispatch),
        ),
        contains_text(
            perf_report(frame),
            sampled_line("Dispatch (всего)"@, frame.dispatch)
                + sampled_line("sendmmsg/flush"@, frame.flush),
        ),
        contains_text(
            perf_report(frame),
            sampled_line("sendmmsg/flush"@, frame.flush)
                + sampled_line("loop bookkeeping"@, frame.bookkeeping),
        ),
        contains_text(
            perf_report(frame),
            sampled_line("loop bookkeeping"@, frame.bookkeeping)
                + perf_totals(frame),
        ),
        contains_text(
            perf_report(frame),
            perf_totals(frame)
                + threads_part(frame.threads@),
        ),
        contains_text(
            perf_report(frame),
            threads_part(frame.threads@)
                + (if frame.sampling_biased { "Sampled-оценка смещена периодической выборкой; для итога используй точные строки процесса и потоков.\n\n"@ } else { ""@ }),
        ),
        contains_text(
            perf_report(frame),
            (if frame.sampling_biased { "Sampled-оценка смещена периодической выборкой; для итога используй точные строки процесса и потоков.\n\n"@ } else { ""@ })
                + "\nПриблизительная sampled-атрибуция внутри Dispatch:\n"@,
        ),
        contains_text(
            perf_report(frame),
            "\nПриблизительная sampled-атрибуция внутри Dispatch:\n"@
                + sampled_line("UDP RX overhead"@, frame.udp_rx),
        ),
        contains_text(
            perf_report(frame),
            sampled_line("UDP RX overhead"@, frame.udp_rx)
                + derived_line("parse+unwrap+crypto"@, frame.unwrap),
        ),
        contains_text(
            perf_report(frame),
            derived_line("parse+unwrap+crypto"@, frame.unwrap)
                + sampled_line("route/replay"@, frame.route_replay),
        ),
        contains_text(
            perf_report(frame),
            sampled_line("route/replay"@, frame.route_replay)
                + sampled_line("TUN write"@, frame.tun_write),
        ),
        contains_text(
            perf_report(frame),
            sampled_line("TUN write"@, frame.tun_write)
                + sampled_line("TUN RX overhead"@, frame.tun_rx),
        ),
        contains_text(
            perf_report(frame),
            sampled_line("TUN RX overhead"@, frame.tun_rx)
                + derived_line("prepare+wrap+crypto"@, frame.wrap),
        ),
        contains_text(
            perf_report(frame),
            derived_line("prepare+wrap+crypto"@, frame.wrap)
                + derived_line("UDP queue inclusive"@, frame.udp_queue),
        ),
        contains_text(
            perf_report(frame),
            derived_line("UDP queue inclusive"@, frame.udp_queue)
                + "\nВнутренние строки sampled независимо и не складываются в точный итог. Истинный общий расход показывает «DATAPLANE THREAD ТОЧНО»; CPU ожидания не включает wall-сон.\n"@,
        ),
{
    let (s, line) = first_part(perf_head(frame));
    let (s, line) = last_part(s, line, sampled_line("Dispatch (всего)"@, frame.dispatch));
    let (s, line) = last_part(s, line, sampled_line("sendmmsg/flush"@, frame.flush));
    let (s, line) = last_part(s, line, sampled_line("loop bookkeeping"@, frame.bookkeeping));
    let (s, line) = last_part(s, line, perf_totals(frame));
    let (s, line) = last_part(s, line, threads_part(frame.threads@));
    let (s, line) = last_part(s, line, (if frame.sampling_biased { "Sampled-оценка смещена периодической выборкой; для итога используй точные строки процесса и потоков.\n\n"@ } else { ""@ }));
    let (s, line) = last_part(s, line, "\nПриблизительная sampled-атрибуция внутри Dispatch:\n"@);
    let (s, line) = last_part(s, line, sampled_line("UDP RX overhead"@, frame.udp_rx));
    let (s, line) = last_part(s, line, derived_line("parse+unwrap+crypto"@, frame.unwrap));
    let (s, line) = last_part(s, line, sampled_line("route/replay"@, frame.route_replay));
    let (s, line) = last_part(s, line, sampled_line("TUN write"@, frame.tun_write));
    let (s, line) = last_part(s, line, sampled_line("TUN RX overhead"@, frame.tun_rx));
    let (s, line) = last_part(s, line, derived_line("prepare+wrap+crypto"@, frame.wrap));
    let (s, line) = last_part(s, line, derived_line("UDP queue inclusive"@, frame.udp_queue));
    let (s, line) = last_part(s, line, "\nВнутренние строки sampled независимо и не складываются в точный итог. Истинный общий расход показывает «DATAPLANE THREAD ТОЧНО»; CPU ожидания не включает wall-сон.\n"@);
    lemma_shown(s);
}

/// A stage that was sampled tells how often; one that was derived says so.
pub proof fn law_stages_tell_their_origin(name: Seq<char>, row: SampledRow)
    ensures
        sampled_line(name, row) == stage_line(name, row.figures) + "выборок: "@ + dec(
            row.samples as nat,
        ) + "\n"@,
        derived_line(name, row.figures) == stage_line(name, row.figures) + "расчёт\n"@,
{
}

/// The first sixteen threads are shown, and how many are left out.
pub proof fn law_first_threads_are_shown(threads: Seq<PerfThread>, i: int)
    requires
        0 <= i < threads.len(),
    ensures
        i < 16 ==> contains_text(threads_part(threads), thread_line(threads[i])),
        threads.len() > 16 ==> contains_text(
            threads_part(threads),
            "ещё потоков: "@ + dec((threads.len() - 16) as nat),
        ),
        threads_part(Seq::empty()).len() == 0,
{
    let n: nat = if threads.len() > 16 {
        16
    } else {
        threads.len()
    };
    let title = "Стабильная разбивка живых потоков по /proc:\n"@;
    let lines = thread_lines(threads, n);
    let all = threads_part(threads);
    if i < 16 {
        lemma_thread_shown(threads, n, i);
        let line = thread_line(threads[i]);
        let at = choose|at: int| occurs_at(lines, line, at);
        assert(all.subrange(title.len() + at, title.len() + at + line.len()) =~= lines.subrange(
            at,
            at + line.len(),
        ));
        assert(occurs_at(all, line, title.len() + at));
    }
    if threads.len() > 16 {
        let tail = "ещё потоков: "@ + dec((threads.len() - 16) as nat);
        let at = (title.len() + lines.len()) as int;
        assert(all.subrange(at, at + tail.len()) =~= tail);
        assert(occurs_at(all, tail, at));
    }
}

proof fn lemma_thread_shown(threads: Seq<PerfThread>, n: nat, i: int)
    requires
        0 <= i < n,
    ensures
        contains_text(thread_lines(threads, n), thread_line(threads[i])),
    decreases n,
{
    let before = thread_lines(threads, (n - 1) as nat);
    let last = thread_line(threads[n - 1]);
    let all = thread_lines(threads, n);
    if i == n - 1 {
        assert(all.subrange(before.len() as int, before.len() as int + last.len()) =~= last);
        assert(occurs_at(all, last, before.len() as int));
    } else {
        lemma_thread_shown(threads, (n - 1) as nat, i);
        let line = thread_line(threads[i]);
        let at = choose|at: int| occurs_at(before, line, at);
        assert(all.subrange(at, at + line.len()) =~= before.subrange(at, at + line.len()));
        assert(occurs_at(all, line, at));
    }
}

/// The time of a thread is its user and system time; the times of all threads add up, as
/// far as they fit; and what is left over is never negative.
pub proof fn law_thread_times_add_up(threads: Seq<PerfThread>, t: PerfThread, a: nat, b: nat)
    ensures
        t.user_cpu_ns + t.system_cpu_ns <= u64::MAX ==> thread_ns(t.user_cpu_ns, t.system_cpu_ns)
            == t.user_cpu_ns + t.system_cpu_ns,
        threads_ns(threads) + thread_ns(t.user_cpu_ns, t.system_cpu_ns) <= u64::MAX ==> threads_ns(
            threads.push(t),
        ) == threads_ns(threads) + thread_ns(t.user_cpu_ns, t.system_cpu_ns),
        threads_ns(threads.push(t)) <= u64::MAX,
        threads_ns(threads.push(t)) >= threads_ns(threads) || threads_ns(threads) > u64::MAX,
        threads_ns(Seq::empty()) == 0,
        left_of(a + b, b) == a,
        a <= b ==> left_of(a, b) == 0,
{
    assert(threads.push(t).drop_last() =~= threads);
}

/// The time of a thread is that of the first thread with its number, none where there is
/// no such thread.
pub proof fn law_time_of_the_first_thread(threads: Seq<PerfThread>, tid: u32, i: int)
    ensures
        0 <= i < threads.len() && threads[i].tid == tid && (forall|j: int|
            0 <= j < i ==> (#[trigger] threads[j]).tid != tid) ==> time_of_thread(threads, tid)
            == thread_ns(threads[i].user_cpu_ns, threads[i].system_cpu_ns),
        (forall|j: int| 0 <= j < threads.len() ==> (#[trigger] threads[j]).tid != tid)
            ==> time_of_thread(threads, tid) == 0,
    decreases threads.len(),
{
    if threads.len() > 0 {
        let rest = threads.drop_first();
        law_time_of_the_first_thread(rest, tid, i - 1);
        assert forall|j: int| 0 <= j < rest.len() implies rest[j] == threads[j + 1] by {}
        if threads[0].tid != tid {
            if 0 < i < threads.len() && threads[i].tid == tid && (forall|j: int|
                0 <= j < i ==> (#[trigger] threads[j]).tid != tid) {
                assert(rest[i - 1] == threads[i]);
                assert forall|j: int| 0 <= j < i - 1 implies (#[trigger] rest[j]).tid != tid by {
                    assert(threads[j + 1].tid != tid);
                }
            }
            if forall|j: int| 0 <= j < threads.len() ==> (#[trigger] threads[j]).tid != tid {
                assert forall|j: int| 0 <= j < rest.len() implies (#[trigger] rest[j]).tid
                    != tid by {
                    assert(threads[j + 1].tid != tid);
                }
            }
        }
    }
}

} // verus!
