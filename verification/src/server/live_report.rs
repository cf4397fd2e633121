//! What the monitors print of a running server.
use vstd::prelude::*;
use crate::server::report::{
    first_part, last_part, lemma_shown, next_part, pad_left, push_left_number, push_number,
};
use crate::text::{
    chars_of, contains_text, dec, digit_char, push_chars, push_text, same_text, string_of,
};

verus! {

/// The traffic of one second.
#[derive(Debug)]
pub struct MonitorFrame {
    pub active_sessions: u64,
    pub udp_rx_pps: u64,
    pub udp_rx_bps: u64,
    pub udp_rx_errors_s: u64,
    pub udp_tx_pps: u64,
    pub udp_tx_bps: u64,
    pub udp_tx_errors_s: u64,
    pub udp_tx_drops_s: u64,
    pub tun_rx_pps: u64,
    pub tun_rx_bps: u64,
    pub tun_rx_errors_s: u64,
    pub tun_tx_pps: u64,
    pub tun_tx_bps: u64,
    pub tun_tx_errors_s: u64,
    pub tun_tx_drops_s: u64,
    pub recv_syscalls_s: u64,
    pub send_syscalls_s: u64,
    pub readiness_wakeups_s: u64,
    pub recv_batch_max: u64,
    pub rx_eagain_s: u64,
    pub tx_eagain_s: u64,
    pub partial_sendmmsg_s: u64,
    pub crypto_ops_s: u64,
    pub free_udp_tx_slots: u64,
    pub free_tun_tx_slots: u64,
    pub total_udp_rx_packets: u64,
    pub total_udp_tx_packets: u64,
    pub total_tun_rx_packets: u64,
    pub total_tun_tx_packets: u64,
}

/// The screen that shows the traffic of one second.
pub open spec fn monitor_screen(f: MonitorFrame) -> Seq<char> {
    "\x1b[2J\x1b[H\x1b[1;36m═══════════════ CSQTT SYSCALL MONITOR ═══════════════\x1b[0m\n\x1b[1;33m Sessions: \x1b[1;37m"@
        + dec(f.active_sessions as nat)
        + "\x1b[0m\n\n\x1b[1;32m  ▲ UDP RX  \x1b[0m "@
        + pad_left(dec(f.udp_rx_pps as nat), 8)
        + " pps  "@
        + pad_left(dec(f.udp_rx_bps as nat), 10)
        + " B/s  err: "@
        + dec(f.udp_rx_errors_s as nat)
        + "\n\x1b[1;34m  ▼ UDP TX  \x1b[0m "@
        + pad_left(dec(f.udp_tx_pps as nat), 8)
        + " pps  "@
        + pad_left(dec(f.udp_tx_bps as nat), 10)
        + " B/s  err: "@
        + dec(f.udp_tx_errors_s as nat)
        + "  drops: "@
        + dec(f.udp_tx_drops_s as nat)
        + "\n\x1b[1;32m  ▲ TUN RX  \x1b[0m "@
        + pad_left(dec(f.tun_rx_pps as nat), 8)
        + " pps  "@
        + pad_left(dec(f.tun_rx_bps as nat), 10)
        + " B/s  err: "@
        + dec(f.tun_rx_errors_s as nat)
        + "\n\x1b[1;34m  ▼ TUN TX  \x1b[0m "@
        + pad_left(dec(f.tun_tx_pps as nat), 8)
        + " pps  "@
        + pad_left(dec(f.tun_tx_bps as nat), 10)
        + " B/s  err: "@
        + dec(f.tun_tx_errors_s as nat)
        + "  drops: "@
        + dec(f.tun_tx_drops_s as nat)
        + "\n\n\x1b[1;35m  syscalls  \x1b[0m recv/s: "@
        + pad_left(dec(f.recv_syscalls_s as nat), 8)
        + "  send/s: "@
        + pad_left(dec(f.send_syscalls_s as nat), 8)
        + "\n\x1b[1;35m  wakeups   \x1b[0m "@
        + pad_left(dec(f.readiness_wakeups_s as nat), 8)
        + "  max batch: "@
        + pad_left(dec(f.recv_batch_max as nat), 8)
        + "\n\x1b[1;35m  eagain    \x1b[0m RX: "@
        + pad_left(dec(f.rx_eagain_s as nat), 8)
        + "  TX: "@
        + pad_left(dec(f.tx_eagain_s as nat), 8)
        + "  partial: "@
        + dec(f.partial_sendmmsg_s as nat)
        + "\n\x1b[1;35m  crypto/s  \x1b[0m "@
        + pad_left(dec(f.crypto_ops_s as nat), 8)
        + "\n\n\x1b[2m  free slots │ UDP TX: "@
        + dec(f.free_udp_tx_slots as nat)
        + "  TUN TX: "@
        + dec(f.free_tun_tx_slots as nat)
        + "\x1b[0m\n\x1b[2m  totals    │ UDP RX: "@
        + dec(f.total_udp_rx_packets as nat)
        + "  UDP TX: "@
        + dec(f.total_udp_tx_packets as nat)
        + "  TUN RX: "@
        + dec(f.total_tun_rx_packets as nat)
        + "  TUN TX: "@
        + dec(f.total_tun_tx_packets as nat)
        + "\x1b[0m\n\x1b[1;36m═════════════════════════════════════════════════════\x1b[0m\n"@
}

fn monitor_screen_chars(f: &MonitorFrame) -> (r: Vec<char>)
    ensures
        r@ == monitor_screen(*f),
{
    let mut out = chars_of("\x1b[2J\x1b[H\x1b[1;36m═══════════════ CSQTT SYSCALL MONITOR ═══════════════\x1b[0m\n\x1b[1;33m Sessions: \x1b[1;37m");
    push_number(&mut out, f.active_sessions as u64);
    push_text(&mut out, "\x1b[0m\n\n\x1b[1;32m  ▲ UDP RX  \x1b[0m ");
    push_left_number(&mut out, f.udp_rx_pps as u64, 8);
    push_text(&mut out, " pps  ");
    push_left_number(&mut out, f.udp_rx_bps as u64, 10);
    push_text(&mut out, " B/s  err: ");
    push_number(&mut out, f.udp_rx_errors_s as u64);
    push_text(&mut out, "\n\x1b[1;34m  ▼ UDP TX  \x1b[0m ");
    push_left_number(&mut out, f.udp_tx_pps as u64, 8);
    push_text(&mut out, " pps  ");
    push_left_number(&mut out, f.udp_tx_bps as u64, 10);
    push_text(&mut out, " B/s  err: ");
    push_number(&mut out, f.udp_tx_errors_s as u64);
    push_text(&mut out, "  drops: ");
    push_number(&mut out, f.udp_tx_drops_s as u64);
    push_text(&mut out, "\n\x1b[1;32m  ▲ TUN RX  \x1b[0m ");
    push_left_number(&mut out, f.tun_rx_pps as u64, 8);
    push_text(&mut out, " pps  ");
    push_left_number(&mut out, f.tun_rx_bps as u64, 10);
    push_text(&mut out, " B/s  err: ");
    push_number(&mut out, f.tun_rx_errors_s as u64);
    push_text(&mut out, "\n\x1b[1;34m  ▼ TUN TX  \x1b[0m ");
    push_left_number(&mut out, f.tun_tx_pps as u64, 8);
    push_text(&mut out, " pps  ");
    push_left_number(&mut out, f.tun_tx_bps as u64, 10);
    push_text(&mut out, " B/s  err: ");
    push_number(&mut out, f.tun_tx_errors_s as u64);
    push_text(&mut out, "  drops: ");
    push_number(&mut out, f.tun_tx_drops_s as u64);
    push_text(&mut out, "\n\n\x1b[1;35m  syscalls  \x1b[0m recv/s: ");
    push_left_number(&mut out, f.recv_syscalls_s as u64, 8);
    push_text(&mut out, "  send/s: ");
    push_left_number(&mut out, f.send_syscalls_s as u64, 8);
    push_text(&mut out, "\n\x1b[1;35m  wakeups   \x1b[0m ");
    push_left_number(&mut out, f.readiness_wakeups_s as u64, 8);
    push_text(&mut out, "  max batch: ");
    push_left_number(&mut out, f.recv_batch_max as u64, 8);
    push_text(&mut out, "\n\x1b[1;35m  eagain    \x1b[0m RX: ");
    push_left_number(&mut out, f.rx_eagain_s as u64, 8);
    push_text(&mut out, "  TX: ");
    push_left_number(&mut out, f.tx_eagain_s as u64, 8);
    push_text(&mut out, "  partial: ");
    push_number(&mut out, f.partial_sendmmsg_s as u64);
    push_text(&mut out, "\n\x1b[1;35m  crypto/s  \x1b[0m ");
    push_left_number(&mut out, f.crypto_ops_s as u64, 8);
    push_text(&mut out, "\n\n\x1b[2m  free slots │ UDP TX: ");
    push_number(&mut out, f.free_udp_tx_slots as u64);
    push_text(&mut out, "  TUN TX: ");
    push_number(&mut out, f.free_tun_tx_slots as u64);
    push_text(&mut out, "\x1b[0m\n\x1b[2m  totals    │ UDP RX: ");
    push_number(&mut out, f.total_udp_rx_packets as u64);
    push_text(&mut out, "  UDP TX: ");
    push_number(&mut out, f.total_udp_tx_packets as u64);
    push_text(&mut out, "  TUN RX: ");
    push_number(&mut out, f.total_tun_rx_packets as u64);
    push_text(&mut out, "  TUN TX: ");
    push_number(&mut out, f.total_tun_tx_packets as u64);
    push_text(&mut out, "\x1b[0m\n\x1b[1;36m═════════════════════════════════════════════════════\x1b[0m\n");
    out
}

/// Writes the screen that shows the traffic of one second.
pub fn render_monitor(frame: &MonitorFrame) -> (r: String)
    ensures
        r@ == monitor_screen(*frame),
{
    let out = monitor_screen_chars(frame);
    string_of(out.as_slice())
}

/// The last second since 1970 for which there is a date.
pub const LAST_SECOND: i64 = 8210266876799;

/// A number below a hundred in two digits.
pub open spec fn two_digits(n: nat) -> Seq<char> {
    dec(n / 10) + dec(n % 10)
}

/// The time of day of a second since 1970: hours, minutes and seconds.
pub open spec fn time_of_day(seconds: nat) -> Seq<char> {
    let s = seconds % 86400;
    two_digits(s / 3600) + ":"@ + two_digits(s / 60 % 60) + ":"@ + two_digits(s % 60)
}

/// The time of day of a second since 1970, from `chrono::DateTime::from_timestamp` and
/// `DateTime::format` with `%H:%M:%S`. There is none after the end of the year 262142,
/// the last that `chrono` has dates for.
#[verifier::external_body]
fn format_time(seconds: i64) -> (r: Option<String>)
    requires
        seconds >= 0,
    ensures
        r is Some <==> seconds <= LAST_SECOND,
        r is Some ==> r->0@ == time_of_day(seconds as nat),
{
    Some(chrono::DateTime::from_timestamp(seconds, 0)?.format("%H:%M:%S").to_string())
}

/// The time of day of a millisecond since 1970.
pub open spec fn clock(timestamp_ms: u64) -> Seq<char> {
    if timestamp_ms / 1000 <= LAST_SECOND {
        time_of_day((timestamp_ms / 1000) as nat)
    } else {
        "00:00:00"@
    }
}

/// The time of day of a millisecond since 1970, midnight where there is no date.
pub fn clock_text(timestamp_ms: u64) -> (r: String)
    ensures
        r@ == clock(timestamp_ms),
{
    match format_time((timestamp_ms / 1000) as i64) {
        Some(text) => text,
        None => "00:00:00".to_owned(),
    }
}

/// Whether a packet came in.
pub fn is_inbound(direction: &str) -> (r: bool)
    ensures
        r == (direction@ == "INBOUND"@),
{
    same_text(direction, "INBOUND")
}

/// A packet that was looked into.
#[derive(Debug)]
pub struct DpiFrame {
    pub timestamp_ms: u64,
    pub direction: String,
    pub src: String,
    pub dst: String,
    pub len: u64,
    pub wire_len: u64,
    pub pt: u8,
    pub proto: String,
    pub seq: u64,
    pub device_id: String,
    pub gen_id: u64,
    pub salt: String,
    pub detail: String,
    pub hex_preview: String,
}

/// What kind of traffic a packet belongs to.
pub open spec fn traffic_kind(f: DpiFrame) -> Seq<char> {
    if f.pt == 111 {
        "\x1b[1;33mRTP-Audio (PT=111)\x1b[0m"@
    } else if f.pt == 96 {
        "\x1b[1;35mRTP-Video (PT=96)\x1b[0m"@
    } else {
        "\x1b[1;36m"@ + f.proto@ + "\x1b[0m"@
    }
}

fn traffic_kind_chars(f: &DpiFrame) -> (r: Vec<char>)
    ensures
        r@ == traffic_kind(*f),
{
    if f.pt == 111 {
        chars_of("\x1b[1;33mRTP-Audio (PT=111)\x1b[0m")
    } else if f.pt == 96 {
        chars_of("\x1b[1;35mRTP-Video (PT=96)\x1b[0m")
    } else {
        let mut out = chars_of("\x1b[1;36m");
        push_text(&mut out, f.proto.as_str());
        push_text(&mut out, "\x1b[0m");
        out
    }
}

/// The dump of a packet, if there is one.
pub open spec fn preview_part(f: DpiFrame) -> Seq<char> {
    if f.hex_preview@.len() == 0 {
        ""@
    } else {
        "  Hex & ASCII Preview:\n\x1b[2m"@ + f.hex_preview@ + "\x1b[0m\n"@
    }
}

fn preview_part_chars(f: &DpiFrame) -> (r: Vec<char>)
    ensures
        r@ == preview_part(*f),
{
    if f.hex_preview.as_str().is_empty() {
        chars_of("")
    } else {
        let mut out = chars_of("  Hex & ASCII Preview:\n\x1b[2m");
        push_text(&mut out, f.hex_preview.as_str());
        push_text(&mut out, "\x1b[0m\n");
        out
    }
}

/// What is shown of a packet.
pub open spec fn dpi_lines(f: DpiFrame) -> Seq<char> {
    "[\x1b[2m"@
        + clock(f.timestamp_ms)
        + "\x1b[0m] "@
        + (if f.direction@ == "INBOUND"@ {
        "\x1b[1;32m▲ INBOUND \x1b[0m"@
    } else {
        "\x1b[1;34m▼ OUTBOUND\x1b[0m"@
    })
        + " | \x1b[1;33m"@
        + f.src@
        + "\x1b[0m -> \x1b[1;36m"@
        + f.dst@
        + "\x1b[0m | Size: "@
        + dec(f.len as nat)
        + " B (Wire: "@
        + dec(f.wire_len as nat)
        + " B)\n  Proto: "@
        + traffic_kind(f)
        + " | Seq: #\x1b[1m"@
        + dec(f.seq as nat)
        + "\x1b[0m | Device: \x1b[1;32m"@
        + f.device_id@
        + "\x1b[0m | Gen: \x1b[1;33m"@
        + dec(f.gen_id as nat)
        + "\x1b[0m | Salt: \x1b[1;35m"@
        + f.salt@
        + "\x1b[0m\n  Detail: \x1b[1;37m"@
        + f.detail@
        + "\x1b[0m\n"@
        + preview_part(f)
        + "\x1b[2m────────────────────────────────────────────────────────────────────────────────────\x1b[0m\n"@
}

/// Writes what is shown of a packet.
pub fn render_dpi(f: &DpiFrame) -> (r: String)
    ensures
        r@ == dpi_lines(*f),
{
    let mut out = chars_of("[\x1b[2m");
    let time = clock_text(f.timestamp_ms);
    push_text(&mut out, time.as_str());
    push_text(&mut out, "\x1b[0m] ");
    if is_inbound(f.direction.as_str()) {
        push_text(&mut out, "\x1b[1;32m▲ INBOUND \x1b[0m");
    } else {
        push_text(&mut out, "\x1b[1;34m▼ OUTBOUND\x1b[0m");
    }
    push_text(&mut out, " | \x1b[1;33m");
    push_text(&mut out, f.src.as_str());
    push_text(&mut out, "\x1b[0m -> \x1b[1;36m");
    push_text(&mut out, f.dst.as_str());
    push_text(&mut out, "\x1b[0m | Size: ");
    push_number(&mut out, f.len as u64);
    push_text(&mut out, " B (Wire: ");
    push_number(&mut out, f.wire_len as u64);
    push_text(&mut out, " B)\n  Proto: ");
    let kind = traffic_kind_chars(f);
    push_chars(&mut out, kind.as_slice());
    push_text(&mut out, " | Seq: #\x1b[1m");
    push_number(&mut out, f.seq as u64);
    push_text(&mut out, "\x1b[0m | Device: \x1b[1;32m");
    push_text(&mut out, f.device_id.as_str());
    push_text(&mut out, "\x1b[0m | Gen: \x1b[1;33m");
    push_number(&mut out, f.gen_id as u64);
    push_text(&mut out, "\x1b[0m | Salt: \x1b[1;35m");
    push_text(&mut out, f.salt.as_str());
    push_text(&mut out, "\x1b[0m\n  Detail: \x1b[1;37m");
    push_text(&mut out, f.detail.as_str());
    push_text(&mut out, "\x1b[0m\n");
    let preview = preview_part_chars(f);
    push_chars(&mut out, preview.as_slice());
    push_text(&mut out, "\x1b[2m────────────────────────────────────────────────────────────────────────────────────\x1b[0m\n");
    string_of(out.as_slice())
}

/// The request for a number of inspected packets.
pub fn dpi_request(samples: usize) -> (r: String)
    ensures
        r@ == dpi_request_text(samples as nat),
{
    let mut out = chars_of("GET_DPI:");
    push_number(&mut out, samples as u64);
    push_text(&mut out, "\n");
    string_of(out.as_slice())
}

/// Every figure on the screen stands behind its label, line by line.
pub proof fn law_monitor_figures_have_labels(f: MonitorFrame)
    ensures
        contains_text(
            monitor_screen(f),
            "\x1b[2J\x1b[H\x1b[1;36m═══════════════ CSQTT SYSCALL MONITOR ═══════════════\x1b[0m\n\x1b[1;33m Sessions: \x1b[1;37m"@
                + dec(f.active_sessions as nat)
                + "\x1b[0m\n\n\x1b[1;32m  ▲ UDP RX  \x1b[0m "@,
        ),
        contains_text(
            monitor_screen(f),
            "\x1b[0m\n\n\x1b[1;32m  ▲ UDP RX  \x1b[0m "@
                + pad_left(dec(f.udp_rx_pps as nat), 8)
                + " pps  "@
                + pad_left(dec(f.udp_rx_bps as nat), 10)
                + " B/s  err: "@
                + dec(f.udp_rx_errors_s as nat)
                + "\n\x1b[1;34m  ▼ UDP TX  \x1b[0m "@,
        ),
        contains_text(
            monitor_screen(f),
            "\n\x1b[1;34m  ▼ UDP TX  \x1b[0m "@
                + pad_left(dec(f.udp_tx_pps as nat), 8)
                + " pps  "@
                + pad_left(dec(f.udp_tx_bps as nat), 10)
                + " B/s  err: "@
                + dec(f.udp_tx_errors_s as nat)
                + "  drops: "@
                + dec(f.udp_tx_drops_s as nat)
                + "\n\x1b[1;32m  ▲ TUN RX  \x1b[0m "@,
        ),
        contains_text(
            monitor_screen(f),
            "\n\x1b[1;32m  ▲ TUN RX  \x1b[0m "@
                + pad_left(dec(f.tun_rx_pps as nat), 8)
                + " pps  "@
                + pad_left(dec(f.tun_rx_bps as nat), 10)
                + " B/s  err: "@
                + dec(f.tun_rx_errors_s as nat)
                + "\n\x1b[1;34m  ▼ TUN TX  \x1b[0m "@,
        ),
        contains_text(
            monitor_screen(f),
            "\n\x1b[1;34m  ▼ TUN TX  \x1b[0m "@
                + pad_left(dec(f.tun_tx_pps as nat), 8)
                + " pps  "@
                + pad_left(dec(f.tun_tx_bps as nat), 10)
                + " B/s  err: "@
                + dec(f.tun_tx_errors_s as nat)
                + "  drops: "@
                + dec(f.tun_tx_drops_s as nat)
                + "\n\n\x1b[1;35m  syscalls  \x1b[0m recv/s: "@,
        ),
        contains_text(
            monitor_screen(f),
            "\n\n\x1b[1;35m  syscalls  \x1b[0m recv/s: "@
                + pad_left(dec(f.recv_syscalls_s as nat), 8)
                + "  send/s: "@
                + pad_left(dec(f.send_syscalls_s as nat), 8)
                + "\n\x1b[1;35m  wakeups   \x1b[0m "@,
        ),
        contains_text(
            monitor_screen(f),
            "\n\x1b[1;35m  wakeups   \x1b[0m "@
                + pad_left(dec(f.readiness_wakeups_s as nat), 8)
                + "  max batch: "@
                + pad_left(dec(f.recv_batch_max as nat), 8)
                + "\n\x1b[1;35m  eagain    \x1b[0m RX: "@,
        ),
        contains_text(
            monitor_screen(f),
            "\n\x1b[1;35m  eagain    \x1b[0m RX: "@
                + pad_left(dec(f.rx_eagain_s as nat), 8)
                + "  TX: "@
                + pad_left(dec(f.tx_eagain_s as nat), 8)
                + "  partial: "@
                + dec(f.partial_sendmmsg_s as nat)
                + "\n\x1b[1;35m  crypto/s  \x1b[0m "@,
        ),
        contains_text(
            monitor_screen(f),
            "\n\x1b[1;35m  crypto/s  \x1b[0m "@
                + pad_left(dec(f.crypto_ops_s as nat), 8)
                + "\n\n\x1b[2m  free slots │ UDP TX: "@,
        ),
        contains_text(
            monitor_screen(f),
            "\n\n\x1b[2m  free slots │ UDP TX: "@
                + dec(f.free_udp_tx_slots as nat)
                + "  TUN TX: "@
                + dec(f.free_tun_tx_slots as nat)
                + "\x1b[0m\n\x1b[2m  totals    │ UDP RX: "@,
        ),
        contains_text(
            monitor_screen(f),
            "\x1b[0m\n\x1b[2m  totals    │ UDP RX: "@
                + dec(f.total_udp_rx_packets as nat)
                + "  UDP TX: "@
                + dec(f.total_udp_tx_packets as nat)
                + "  TUN RX: "@
                + dec(f.total_tun_rx_packets as nat)
                + "  TUN TX: "@
                + dec(f.total_tun_tx_packets as nat)
                + "\x1b[0m\n\x1b[1;36m═════════════════════════════════════════════════════\x1b[0m\n"@,
        ),
{
    let (s, line) = first_part("\x1b[2J\x1b[H\x1b[1;36m═══════════════ CSQTT SYSCALL MONITOR ═══════════════\x1b[0m\n\x1b[1;33m Sessions: \x1b[1;37m"@);
    let (s, line) = next_part(s, line, dec(f.active_sessions as nat));
    let (s, line) = last_part(s, line, "\x1b[0m\n\n\x1b[1;32m  ▲ UDP RX  \x1b[0m "@);
    let (s, line) = next_part(s, line, pad_left(dec(f.udp_rx_pps as nat), 8));
    let (s, line) = next_part(s, line, " pps  "@);
    let (s, line) = next_part(s, line, pad_left(dec(f.udp_rx_bps as nat), 10));
    let (s, line) = next_part(s, line, " B/s  err: "@);
    let (s, line) = next_part(s, line, dec(f.udp_rx_errors_s as nat));
    let (s, line) = last_part(s, line, "\n\x1b[1;34m  ▼ UDP TX  \x1b[0m "@);
    let (s, line) = next_part(s, line, pad_left(dec(f.udp_tx_pps as nat), 8));
    let (s, line) = next_part(s, line, " pps  "@);
    let (s, line) = next_part(s, line, pad_left(dec(f.udp_tx_bps as nat), 10));
    let (s, line) = next_part(s, line, " B/s  err: "@);
    let (s, line) = next_part(s, line, dec(f.udp_tx_errors_s as nat));
    let (s, line) = next_part(s, line, "  drops: "@);
    let (s, line) = next_part(s, line, dec(f.udp_tx_drops_s as nat));
    let (s, line) = last_part(s, line, "\n\x1b[1;32m  ▲ TUN RX  \x1b[0m "@);
    let (s, line) = next_part(s, line, pad_left(dec(f.tun_rx_pps as nat), 8));
    let (s, line) = next_part(s, line, " pps  "@);
    let (s, line) = next_part(s, line, pad_left(dec(f.tun_rx_bps as nat), 10));
    let (s, line) = next_part(s, line, " B/s  err: "@);
    let (s, line) = next_part(s, line, dec(f.tun_rx_errors_s as nat));
    let (s, line) = last_part(s, line, "\n\x1b[1;34m  ▼ TUN TX  \x1b[0m "@);
    let (s, line) = next_part(s, line, pad_left(dec(f.tun_tx_pps as nat), 8));
    let (s, line) = next_part(s, line, " pps  "@);
    let (s, line) = next_part(s, line, pad_left(dec(f.tun_tx_bps as nat), 10));
    let (s, line) = next_part(s, line, " B/s  err: "@);
    let (s, line) = next_part(s, line, dec(f.tun_tx_errors_s as nat));
    let (s, line) = next_part(s, line, "  drops: "@);
    let (s, line) = next_part(s, line, dec(f.tun_tx_drops_s as nat));
    let (s, line) = last_part(s, line, "\n\n\x1b[1;35m  syscalls  \x1b[0m recv/s: "@);
    let (s, line) = next_part(s, line, pad_left(dec(f.recv_syscalls_s as nat), 8));
    let (s, line) = next_part(s, line, "  send/s: "@);
    let (s, line) = next_part(s, line, pad_left(dec(f.send_syscalls_s as nat), 8));
    let (s, line) = last_part(s, line, "\n\x1b[1;35m  wakeups   \x1b[0m "@);
    let (s, line) = next_part(s, line, pad_left(dec(f.readiness_wakeups_s as nat), 8));
    let (s, line) = next_part(s, line, "  max batch: "@);
    let (s, line) = next_part(s, line, pad_left(dec(f.recv_batch_max as nat), 8));
    let (s, line) = last_part(s, line, "\n\x1b[1;35m  eagain    \x1b[0m RX: "@);
    let (s, line) = next_part(s, line, pad_left(dec(f.rx_eagain_s as nat), 8));
    let (s, line) = next_part(s, line, "  TX: "@);
    let (s, line) = next_part(s, line, pad_left(dec(f.tx_eagain_s as nat), 8));
    let (s, line) = next_part(s, line, "  partial: "@);
    let (s, line) = next_part(s, line, dec(f.partial_sendmmsg_s as nat));
    let (s, line) = last_part(s, line, "\n\x1b[1;35m  crypto/s  \x1b[0m "@);
    let (s, line) = next_part(s, line, pad_left(dec(f.crypto_ops_s as nat), 8));
    let (s, line) = last_part(s, line, "\n\n\x1b[2m  free slots │ UDP TX: "@);
    let (s, line) = next_part(s, line, dec(f.free_udp_tx_slots as nat));
    let (s, line) = next_part(s, line, "  TUN TX: "@);
    let (s, line) = next_part(s, line, dec(f.free_tun_tx_slots as nat));
    let (s, line) = last_part(s, line, "\x1b[0m\n\x1b[2m  totals    │ UDP RX: "@);
    let (s, line) = next_part(s, line, dec(f.total_udp_rx_packets as nat));
    let (s, line) = next_part(s, line, "  UDP TX: "@);
    let (s, line) = next_part(s, line, dec(f.total_udp_tx_packets as nat));
    let (s, line) = next_part(s, line, "  TUN RX: "@);
    let (s, line) = next_part(s, line, dec(f.total_tun_rx_packets as nat));
    let (s, line) = next_part(s, line, "  TUN TX: "@);
    let (s, line) = next_part(s, line, dec(f.total_tun_tx_packets as nat));
    let (s, line) = last_part(s, line, "\x1b[0m\n\x1b[1;36m═════════════════════════════════════════════════════\x1b[0m\n"@);
    lemma_shown(s);
}

/// Everything known of a packet stands behind its label: when and which way it went, from
/// where to where, its sizes, what it is, and whose it is.
pub proof fn law_packet_figures_have_labels(f: DpiFrame)
    ensures
        contains_text(
            dpi_lines(f),
            "[\x1b[2m"@
                + clock(f.timestamp_ms)
                + "\x1b[0m] "@
                + (if f.direction@ == "INBOUND"@ { "\x1b[1;32m▲ INBOUND \x1b[0m"@ } else { "\x1b[1;34m▼ OUTBOUND\x1b[0m"@ })
                + " | \x1b[1;33m"@
                + f.src@
                + "\x1b[0m -> \x1b[1;36m"@
                + f.dst@
                + "\x1b[0m | Size: "@
                + dec(f.len as nat)
                + " B (Wire: "@
                + dec(f.wire_len as nat)
                + " B)\n  Proto: "@,
        ),
        contains_text(
            dpi_lines(f),
            " B)\n  Proto: "@
                + traffic_kind(f)
                + " | Seq: #\x1b[1m"@
                + dec(f.seq as nat)
                + "\x1b[0m | Device: \x1b[1;32m"@
                + f.device_id@
                + "\x1b[0m | Gen: \x1b[1;33m"@
                + dec(f.gen_id as nat)
                + "\x1b[0m | Salt: \x1b[1;35m"@
                + f.salt@
                + "\x1b[0m\n  Detail: \x1b[1;37m"@,
        ),
        contains_text(
            dpi_lines(f),
            "\x1b[0m\n  Detail: \x1b[1;37m"@
                + f.detail@
                + "\x1b[0m\n"@,
        ),
        contains_text(
            dpi_lines(f),
            "\x1b[0m\n"@
                + preview_part(f)
                + "\x1b[2m────────────────────────────────────────────────────────────────────────────────────\x1b[0m\n"@,
        ),
{
    let (s, line) = first_part("[\x1b[2m"@);
    let (s, line) = next_part(s, line, clock(f.timestamp_ms));
    let (s, line) = next_part(s, line, "\x1b[0m] "@);
    let (s, line) = next_part(s, line, (if f.direction@ == "INBOUND"@ { "\x1b[1;32m▲ INBOUND \x1b[0m"@ } else { "\x1b[1;34m▼ OUTBOUND\x1b[0m"@ }));
    let (s, line) = next_part(s, line, " | \x1b[1;33m"@);
    let (s, line) = next_part(s, line, f.src@);
    let (s, line) = next_part(s, line, "\x1b[0m -> \x1b[1;36m"@);
    let (s, line) = next_part(s, line, f.dst@);
    let (s, line) = next_part(s, line, "\x1b[0m | Size: "@);
    let (s, line) = next_part(s, line, dec(f.len as nat));
    let (s, line) = next_part(s, line, " B (Wire: "@);
    let (s, line) = next_part(s, line, dec(f.wire_len as nat));
    let (s, line) = last_part(s, line, " B)\n  Proto: "@);
    let (s, line) = next_part(s, line, traffic_kind(f));
    let (s, line) = next_part(s, line, " | Seq: #\x1b[1m"@);
    let (s, line) = next_part(s, line, dec(f.seq as nat));
    let (s, line) = next_part(s, line, "\x1b[0m | Device: \x1b[1;32m"@);
    let (s, line) = next_part(s, line, f.device_id@);
    let (s, line) = next_part(s, line, "\x1b[0m | Gen: \x1b[1;33m"@);
    let (s, line) = next_part(s, line, dec(f.gen_id as nat));
    let (s, line) = next_part(s, line, "\x1b[0m | Salt: \x1b[1;35m"@);
    let (s, line) = next_part(s, line, f.salt@);
    let (s, line) = last_part(s, line, "\x1b[0m\n  Detail: \x1b[1;37m"@);
    let (s, line) = next_part(s, line, f.detail@);
    let (s, line) = last_part(s, line, "\x1b[0m\n"@);
    let (s, line) = next_part(s, line, preview_part(f));
    let (s, line) = last_part(s, line, "\x1b[2m────────────────────────────────────────────────────────────────────────────────────\x1b[0m\n"@);
    lemma_shown(s);
}

/// Audio and video are told by their payload types, anything else by its protocol; a
/// preview is shown where there is one.
pub proof fn law_packets_are_named(f: DpiFrame)
    ensures
        f.pt == 111 ==> traffic_kind(f) == "\x1b[1;33mRTP-Audio (PT=111)\x1b[0m"@,
        f.pt == 96 ==> traffic_kind(f) == "\x1b[1;35mRTP-Video (PT=96)\x1b[0m"@,
        f.pt != 111 && f.pt != 96 ==> traffic_kind(f) == "\x1b[1;36m"@ + f.proto@ + "\x1b[0m"@,
        f.hex_preview@.len() == 0 ==> preview_part(f) == ""@,
        f.hex_preview@.len() > 0 ==> preview_part(f) == "  Hex & ASCII Preview:\n\x1b[2m"@
            + f.hex_preview@ + "\x1b[0m\n"@,
{
}

/// A time of day has hours, minutes and seconds of two digits each, and starts over every
/// day.
pub proof fn law_clock_counts_the_day(hours: nat, minutes: nat, seconds: nat, days: nat)
    requires
        hours < 24,
        minutes < 60,
        seconds < 60,
    ensures
        time_of_day(days * 86400 + hours * 3600 + minutes * 60 + seconds) == two_digits(hours)
            + ":"@ + two_digits(minutes) + ":"@ + two_digits(seconds),
        two_digits(hours).len() == 2,
        two_digits(minutes).len() == 2,
        two_digits(seconds) == seq![digit_char(seconds / 10), digit_char(seconds % 10)],
{
    let s = days * 86400 + hours * 3600 + minutes * 60 + seconds;
    let day = hours * 3600 + minutes * 60 + seconds;
    assert(s % 86400 == day) by {
        assert(s == days * 86400 + day);
        vstd::arithmetic::div_mod::lemma_mod_multiples_vanish(days as int, day as int, 86400);
    }
    assert(day / 3600 == hours);
    assert(day / 60 % 60 == minutes);
    assert(day % 60 == seconds);
    assert(two_digits(seconds) =~= seq![digit_char(seconds / 10), digit_char(seconds % 10)]);
}

/// The request for a number of inspected packets.
pub open spec fn dpi_request_text(samples: nat) -> Seq<char> {
    "GET_DPI:"@ + dec(samples) + "\n"@
}

/// A request for packets is a line that ends in the number behind a colon.
pub proof fn law_dpi_requests_are_lines(samples: nat)
    ensures
        dpi_request_text(samples).take(8) == "GET_DPI:"@,
        dpi_request_text(samples).skip(8).drop_last() == dec(samples),
        dpi_request_text(samples).last() == '\n',
{
    reveal_strlit("GET_DPI:");
    reveal_strlit("\n");
    let t = dpi_request_text(samples);
    assert(t.take(8) =~= "GET_DPI:"@);
    assert(t.skip(8).drop_last() =~= dec(samples));
}

/// Times beyond the last date show midnight, all others the time of their day, whatever the
/// millisecond.
pub proof fn law_clock_ends_with_the_dates(timestamp_ms: u64)
    ensures
        timestamp_ms >= 8210266876800000 ==> clock(timestamp_ms) == "00:00:00"@,
        timestamp_ms < 8210266876800000 ==> clock(timestamp_ms) == time_of_day(
            (timestamp_ms / 1000) as nat,
        ),
{
}

} // verus!
