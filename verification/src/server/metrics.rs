//! The memory report that the server prints about itself.
use vstd::prelude::*;
use crate::server::report::{
    bytes_text, first_part, kib_text, last_part, lemma_shown, limit_text, next_part, pad_left,
    pad_right, padded_right, push_bytes_text, push_kib, push_left_kib, push_limit, push_number,
};
use crate::text::{chars_of, contains_text, dec, occurs_at, push_chars, push_text, string_of};

verus! {

/// What the system says of the process.
#[derive(Debug)]
pub struct ProcessMemory {
    pub available: bool,
    pub rss_kib: u64,
    pub peak_rss_kib: u64,
    pub threads: u64,
    pub swap_kib: u64,
    pub anonymous_kib: u64,
    pub file_kib: u64,
    pub shmem_kib: u64,
}

/// What the system says of all mappings of the process together.
#[derive(Debug)]
pub struct RollupMemory {
    pub available: bool,
    pub rss_kib: u64,
    pub pss_kib: u64,
    pub private_kib: u64,
    pub shared_kib: u64,
    pub swap_kib: u64,
    pub swap_pss_kib: u64,
    pub pss_anon_kib: u64,
    pub pss_file_kib: u64,
    pub pss_shmem_kib: u64,
    pub anonymous_kib: u64,
}

/// Mappings of one category.
#[derive(Debug)]
pub struct MappingCategory {
    pub category: String,
    pub rss_kib: u64,
    pub pss_kib: u64,
    pub private_kib: u64,
    pub shared_kib: u64,
}

/// Mappings by category, the largest first.
#[derive(Debug)]
pub struct MappingMemory {
    pub available: bool,
    pub categories: Vec<MappingCategory>,
}

/// What the control group of the process uses.
#[derive(Debug)]
pub struct CgroupMemory {
    pub available: bool,
    pub version: String,
    pub current_bytes: u64,
    pub peak_bytes: u64,
    pub max_bytes: Option<u64>,
    pub swap_current_bytes: Option<u64>,
    pub swap_max_bytes: Option<u64>,
    pub anon_bytes: u64,
    pub file_bytes: u64,
    pub shmem_bytes: u64,
    pub sock_bytes: u64,
    pub kernel_stack_bytes: u64,
    pub pagetables_bytes: u64,
    pub percpu_bytes: u64,
    pub slab_reclaimable_bytes: u64,
    pub slab_unreclaimable_bytes: u64,
    pub file_mapped_bytes: u64,
    pub file_dirty_bytes: u64,
}

/// What waits in the sockets of the process.
#[derive(Debug)]
pub struct SocketMemory {
    pub available: bool,
    pub socket_fds: u64,
    pub udp_sockets: u64,
    pub udp_tx_queue_bytes: u64,
    pub udp_rx_queue_bytes: u64,
    pub tcp_sockets: u64,
    pub tcp_tx_queue_bytes: u64,
    pub tcp_rx_queue_bytes: u64,
}

/// Packet buffers.
#[derive(Debug)]
pub struct FixedBuffers {
    pub packet_pool_capacity_slots: u64,
    pub packet_pool_allocated_slots: u64,
    pub packet_pool_allocated_payload_bytes: u64,
    pub packet_pool_retained_slots: u64,
    pub packet_capacity_bytes: u64,
    pub udp_tx_slots: u64,
    pub udp_tx_payload_bytes: u64,
    pub udp_tx_in_use_slots: u64,
    pub tun_tx_slots: u64,
    pub tun_tx_payload_bytes: u64,
    pub tun_tx_in_use_slots: u64,
    pub udp_rx_mode: String,
    pub udp_rx_slots: u64,
    pub udp_rx_slot_bytes: u64,
    pub udp_rx_payload_bytes: u64,
    pub tun_rx_payload_bytes: u64,
    pub fixed_payload_bytes: u64,
    pub udp_socket_rcvbuf_request_bytes: u64,
    pub udp_socket_sndbuf_request_bytes: u64,
}

/// What the server itself holds.
#[derive(Debug)]
pub struct RuntimeMemory {
    pub allocator: String,
    pub hot_sessions: u64,
    pub hot_session_capacity: u64,
    pub hot_session_limit: u64,
    pub public_sessions: u64,
    pub public_session_capacity: u64,
    pub max_stream_workers_per_device: u64,
    pub engine_epochs: u64,
    pub device_epochs: u64,
    pub device_epoch_capacity: u64,
    pub derived_keys: u64,
    pub derived_key_string_capacity_bytes: u64,
    pub web_sessions: u64,
    pub web_session_limit: u64,
    pub web_session_key_capacity_bytes: u64,
    pub login_limits: u64,
    pub login_limit_limit: u64,
    pub login_limit_key_capacity_bytes: u64,
    pub log_entries: u64,
    pub log_entry_limit: u64,
    pub log_string_capacity_bytes: u64,
    pub log_ring_metadata_capacity_bytes: u64,
    pub dpi_entries: u64,
    pub dpi_entry_capacity: u64,
    pub dpi_retained_bytes: u64,
    pub stream_repairs: u64,
    pub stream_inventory: u64,
    pub dataplane_commands_queued: u64,
    pub dataplane_command_capacity: u64,
    pub memory_trim_count: u64,
    pub local_proxy_active: bool,
    pub local_proxy_tcp_sessions: u64,
    pub local_proxy_tcp_limit: u64,
    pub local_proxy_udp_flows: u64,
    pub local_proxy_udp_limit: u64,
    pub local_proxy_payload_allocated_bytes: u64,
    pub local_proxy_payload_retained_bytes: u64,
    pub local_proxy_opening_buffer_allocated_bytes: u64,
    pub local_proxy_payload_upper_bound_at_limit_bytes: u64,
}

/// What the server holds on disk.
#[derive(Debug)]
pub struct StorageSizes {
    pub sqlite_db_bytes: u64,
    pub sqlite_wal_bytes: u64,
    pub sqlite_shm_bytes: u64,
    pub log_file_bytes: u64,
}

/// The memory of the server at one moment.
#[derive(Debug)]
pub struct MetricFrame {
    pub pid: u32,
    pub process: ProcessMemory,
    pub smaps_rollup: RollupMemory,
    pub mappings: MappingMemory,
    pub cgroup: CgroupMemory,
    pub sockets: SocketMemory,
    pub fixed_buffers: FixedBuffers,
    pub runtime: RuntimeMemory,
    pub storage: StorageSizes,
}

/// The head of the report.
pub open spec fn metric_head(pid: u32) -> Seq<char> {
    "CSQTT METRIC ALL — снимок памяти сервера (PID "@
        + dec(pid as nat)
        + ")\nОбновление раз в 2 с. RSS/PSS, cgroup и kernel socket memory пересекаются — их нельзя складывать.\n\n"@
}

fn metric_head_chars(pid: &u32) -> (r: Vec<char>)
    ensures
        r@ == metric_head(*pid),
{
    let mut out = chars_of("CSQTT METRIC ALL — снимок памяти сервера (PID ");
    push_number(&mut out, *pid as u64);
    push_text(&mut out, ")\nОбновление раз в 2 с. RSS/PSS, cgroup и kernel socket memory пересекаются — их нельзя складывать.\n\n");
    out
}

/// The section on the process.
pub open spec fn process_part(p: ProcessMemory) -> Seq<char> {
    if p.available {
        "[Процесс /proc/self/status]\nRSS "@
            + kib_text(p.rss_kib)
            + " · пик VmHWM "@
            + kib_text(p.peak_rss_kib)
            + " · потоки "@
            + dec(p.threads as nat)
            + " · swap "@
            + kib_text(p.swap_kib)
            + "\nRSS-состав: anon "@
            + kib_text(p.anonymous_kib)
            + " · file "@
            + kib_text(p.file_kib)
            + " · shmem "@
            + kib_text(p.shmem_kib)
            + "\n\n"@
    } else {
        "[Процесс] /proc/self/status недоступен\n\n"@
    }
}

fn process_part_chars(p: &ProcessMemory) -> (r: Vec<char>)
    ensures
        r@ == process_part(*p),
{
    if p.available {
        let mut out = chars_of("[Процесс /proc/self/status]\nRSS ");
        push_kib(&mut out, p.rss_kib);
        push_text(&mut out, " · пик VmHWM ");
        push_kib(&mut out, p.peak_rss_kib);
        push_text(&mut out, " · потоки ");
        push_number(&mut out, p.threads as u64);
        push_text(&mut out, " · swap ");
        push_kib(&mut out, p.swap_kib);
        push_text(&mut out, "\nRSS-состав: anon ");
        push_kib(&mut out, p.anonymous_kib);
        push_text(&mut out, " · file ");
        push_kib(&mut out, p.file_kib);
        push_text(&mut out, " · shmem ");
        push_kib(&mut out, p.shmem_kib);
        push_text(&mut out, "\n\n");
        out
    } else {
        let mut out = chars_of("[Процесс] /proc/self/status недоступен\n\n");
        out
    }
}

/// The section on all mappings together.
pub open spec fn rollup_part(p: RollupMemory) -> Seq<char> {
    if p.available {
        "[smaps_rollup — более честная доля памяти процесса]\nRss "@
            + kib_text(p.rss_kib)
            + " · Pss "@
            + kib_text(p.pss_kib)
            + " · private "@
            + kib_text(p.private_kib)
            + " · shared "@
            + kib_text(p.shared_kib)
            + " · Swap "@
            + kib_text(p.swap_kib)
            + " / SwapPss "@
            + kib_text(p.swap_pss_kib)
            + "\nPSS-состав: anon "@
            + kib_text(p.pss_anon_kib)
            + " · file "@
            + kib_text(p.pss_file_kib)
            + " · shmem "@
            + kib_text(p.pss_shmem_kib)
            + " · Anonymous RSS-like "@
            + kib_text(p.anonymous_kib)
            + "\n\n"@
    } else {
        "[smaps_rollup] недоступен\n\n"@
    }
}

fn rollup_part_chars(p: &RollupMemory) -> (r: Vec<char>)
    ensures
        r@ == rollup_part(*p),
{
    if p.available {
        let mut out = chars_of("[smaps_rollup — более честная доля памяти процесса]\nRss ");
        push_kib(&mut out, p.rss_kib);
        push_text(&mut out, " · Pss ");
        push_kib(&mut out, p.pss_kib);
        push_text(&mut out, " · private ");
        push_kib(&mut out, p.private_kib);
        push_text(&mut out, " · shared ");
        push_kib(&mut out, p.shared_kib);
        push_text(&mut out, " · Swap ");
        push_kib(&mut out, p.swap_kib);
        push_text(&mut out, " / SwapPss ");
        push_kib(&mut out, p.swap_pss_kib);
        push_text(&mut out, "\nPSS-состав: anon ");
        push_kib(&mut out, p.pss_anon_kib);
        push_text(&mut out, " · file ");
        push_kib(&mut out, p.pss_file_kib);
        push_text(&mut out, " · shmem ");
        push_kib(&mut out, p.pss_shmem_kib);
        push_text(&mut out, " · Anonymous RSS-like ");
        push_kib(&mut out, p.anonymous_kib);
        push_text(&mut out, "\n\n");
        out
    } else {
        let mut out = chars_of("[smaps_rollup] недоступен\n\n");
        out
    }
}

/// The line of one category of mappings.
pub open spec fn mapping_line(p: MappingCategory) -> Seq<char> {
    pad_right(p.category@, 24)
        + " RSS "@
        + pad_left(kib_text(p.rss_kib), 10)
        + " · PSS "@
        + pad_left(kib_text(p.pss_kib), 10)
        + " · private "@
        + pad_left(kib_text(p.private_kib), 10)
        + " · shared "@
        + pad_left(kib_text(p.shared_kib), 10)
        + "\n"@
}

fn mapping_line_chars(p: &MappingCategory) -> (r: Vec<char>)
    ensures
        r@ == mapping_line(*p),
{
    let mut out = padded_right(p.category.as_str(), 24);
    push_text(&mut out, " RSS ");
    push_left_kib(&mut out, p.rss_kib, 10);
    push_text(&mut out, " · PSS ");
    push_left_kib(&mut out, p.pss_kib, 10);
    push_text(&mut out, " · private ");
    push_left_kib(&mut out, p.private_kib, 10);
    push_text(&mut out, " · shared ");
    push_left_kib(&mut out, p.shared_kib, 10);
    push_text(&mut out, "\n");
    out
}

/// Categories that are shown.
pub const MAPPING_LINES: usize = 12;

/// The lines of the first `n` categories.
pub open spec fn mapping_lines(categories: Seq<MappingCategory>, n: nat) -> Seq<char>
    decreases n,
{
    if n == 0 {
        Seq::empty()
    } else {
        mapping_lines(categories, (n - 1) as nat) + mapping_line(categories[n - 1])
    }
}

/// How many categories are shown.
pub open spec fn shown(len: nat, most: nat) -> nat {
    if len < most {
        len
    } else {
        most
    }
}

/// The section on mappings.
pub open spec fn mappings_part(p: MappingMemory) -> Seq<char> {
    if p.available {
        "[Карта отображений smaps, top по RSS]\n"@ + mapping_lines(
            p.categories@,
            shown(p.categories@.len(), MAPPING_LINES as nat),
        ) + "\n"@
    } else {
        Seq::empty()
    }
}

fn mappings_part_chars(p: &MappingMemory) -> (r: Vec<char>)
    ensures
        r@ == mappings_part(*p),
{
    let mut lines: Vec<char> = Vec::new();
    proof {
        assert(lines@ =~= Seq::<char>::empty());
    }
    if !p.available {
        return lines;
    }
    let n: usize = if p.categories.len() < MAPPING_LINES {
        p.categories.len()
    } else {
        MAPPING_LINES
    };
    let mut i: usize = 0;
    while i < n
        invariant
            i <= n <= p.categories@.len(),
            lines@ == mapping_lines(p.categories@, i as nat),
        decreases n - i,
    {
        let line = mapping_line_chars(&p.categories[i]);
        push_chars(&mut lines, line.as_slice());
        i = i + 1;
    }
    let mut out = chars_of("[Карта отображений smaps, top по RSS]\n");
    push_chars(&mut out, lines.as_slice());
    push_text(&mut out, "\n");
    out
}

/// The section on the control group.
pub open spec fn cgroup_part(p: CgroupMemory) -> Seq<char> {
    if p.available {
        "[cgroup memory."@
            + p.version@
            + " — группа, не только Rust heap]\ncurrent "@
            + bytes_text(p.current_bytes)
            + " · peak "@
            + bytes_text(p.peak_bytes)
            + " · max "@
            + limit_text(p.max_bytes)
            + " · swap current "@
            + limit_text(p.swap_current_bytes)
            + " · swap max "@
            + limit_text(p.swap_max_bytes)
            + "\nanon "@
            + bytes_text(p.anon_bytes)
            + " · file "@
            + bytes_text(p.file_bytes)
            + " · shmem "@
            + bytes_text(p.shmem_bytes)
            + " · sock "@
            + bytes_text(p.sock_bytes)
            + " · kernel_stack "@
            + bytes_text(p.kernel_stack_bytes)
            + " · pagetables "@
            + bytes_text(p.pagetables_bytes)
            + " · percpu "@
            + bytes_text(p.percpu_bytes)
            + "\nslab reclaimable "@
            + bytes_text(p.slab_reclaimable_bytes)
            + " · slab unreclaimable "@
            + bytes_text(p.slab_unreclaimable_bytes)
            + " · file_mapped "@
            + bytes_text(p.file_mapped_bytes)
            + " · file_dirty "@
            + bytes_text(p.file_dirty_bytes)
            + "\n\n"@
    } else {
        "[cgroup memory] недоступна\n\n"@
    }
}

fn cgroup_part_chars(p: &CgroupMemory) -> (r: Vec<char>)
    ensures
        r@ == cgroup_part(*p),
{
    if p.available {
        let mut out = chars_of("[cgroup memory.");
        push_text(&mut out, p.version.as_str());
        push_text(&mut out, " — группа, не только Rust heap]\ncurrent ");
        push_bytes_text(&mut out, p.current_bytes);
        push_text(&mut out, " · peak ");
        push_bytes_text(&mut out, p.peak_bytes);
        push_text(&mut out, " · max ");
        push_limit(&mut out, p.max_bytes);
        push_text(&mut out, " · swap current ");
        push_limit(&mut out, p.swap_current_bytes);
        push_text(&mut out, " · swap max ");
        push_limit(&mut out, p.swap_max_bytes);
        push_text(&mut out, "\nanon ");
        push_bytes_text(&mut out, p.anon_bytes);
        push_text(&mut out, " · file ");
        push_bytes_text(&mut out, p.file_bytes);
        push_text(&mut out, " · shmem ");
        push_bytes_text(&mut out, p.shmem_bytes);
        push_text(&mut out, " · sock ");
        push_bytes_text(&mut out, p.sock_bytes);
        push_text(&mut out, " · kernel_stack ");
        push_bytes_text(&mut out, p.kernel_stack_bytes);
        push_text(&mut out, " · pagetables ");
        push_bytes_text(&mut out, p.pagetables_bytes);
        push_text(&mut out, " · percpu ");
        push_bytes_text(&mut out, p.percpu_bytes);
        push_text(&mut out, "\nslab reclaimable ");
        push_bytes_text(&mut out, p.slab_reclaimable_bytes);
        push_text(&mut out, " · slab unreclaimable ");
        push_bytes_text(&mut out, p.slab_unreclaimable_bytes);
        push_text(&mut out, " · file_mapped ");
        push_bytes_text(&mut out, p.file_mapped_bytes);
        push_text(&mut out, " · file_dirty ");
        push_bytes_text(&mut out, p.file_dirty_bytes);
        push_text(&mut out, "\n\n");
        out
    } else {
        let mut out = chars_of("[cgroup memory] недоступна\n\n");
        out
    }
}

/// The section on sockets.
pub open spec fn sockets_part(p: SocketMemory) -> Seq<char> {
    if p.available {
        "[Сокеты процесса — только текущие очереди payload]\nFD socket "@
            + dec(p.socket_fds as nat)
            + " · UDP "@
            + dec(p.udp_sockets as nat)
            + " (TX "@
            + bytes_text(p.udp_tx_queue_bytes)
            + " / RX "@
            + bytes_text(p.udp_rx_queue_bytes)
            + ") · TCP "@
            + dec(p.tcp_sockets as nat)
            + " (TX "@
            + bytes_text(p.tcp_tx_queue_bytes)
            + " / RX "@
            + bytes_text(p.tcp_rx_queue_bytes)
            + ")\nПолное kernel socket allocation смотри выше в cgroup `sock`, а не в этой очереди.\n\n"@
    } else {
        Seq::empty()
    }
}

fn sockets_part_chars(p: &SocketMemory) -> (r: Vec<char>)
    ensures
        r@ == sockets_part(*p),
{
    if p.available {
        let mut out = chars_of("[Сокеты процесса — только текущие очереди payload]\nFD socket ");
        push_number(&mut out, p.socket_fds as u64);
        push_text(&mut out, " · UDP ");
        push_number(&mut out, p.udp_sockets as u64);
        push_text(&mut out, " (TX ");
        push_bytes_text(&mut out, p.udp_tx_queue_bytes);
        push_text(&mut out, " / RX ");
        push_bytes_text(&mut out, p.udp_rx_queue_bytes);
        push_text(&mut out, ") · TCP ");
        push_number(&mut out, p.tcp_sockets as u64);
        push_text(&mut out, " (TX ");
        push_bytes_text(&mut out, p.tcp_tx_queue_bytes);
        push_text(&mut out, " / RX ");
        push_bytes_text(&mut out, p.tcp_rx_queue_bytes);
        push_text(&mut out, ")\nПолное kernel socket allocation смотри выше в cgroup `sock`, а не в этой очереди.\n\n");
        out
    } else {
        let out: Vec<char> = Vec::new();
        proof {
            assert(out@ =~= Seq::<char>::empty());
        }
        out
    }
}

/// The section on packet buffers.
pub open spec fn buffers_part(p: FixedBuffers) -> Seq<char> {
    "[Пул пакетов CSQTT — live payload, не утечка]\nPacket pool capacity "@
        + dec(p.packet_pool_capacity_slots as nat)
        + " · выделено "@
        + dec(p.packet_pool_allocated_slots as nat)
        + " ("@
        + bytes_text(p.packet_pool_allocated_payload_bytes)
        + ") · удерживается "@
        + dec(p.packet_pool_retained_slots as nat)
        + "\nUDP TX capacity "@
        + dec(p.udp_tx_slots as nat)
        + " × "@
        + bytes_text(p.packet_capacity_bytes)
        + " = "@
        + bytes_text(p.udp_tx_payload_bytes)
        + " · занято "@
        + dec(p.udp_tx_in_use_slots as nat)
        + "/"@
        + dec(p.udp_tx_slots as nat)
        + "\nTUN TX capacity "@
        + dec(p.tun_tx_slots as nat)
        + " × "@
        + bytes_text(p.packet_capacity_bytes)
        + " = "@
        + bytes_text(p.tun_tx_payload_bytes)
        + " · занято "@
        + dec(p.tun_tx_in_use_slots as nat)
        + "/"@
        + dec(p.tun_tx_slots as nat)
        + "\nUDP RX "@
        + p.udp_rx_mode@
        + ": "@
        + dec(p.udp_rx_slots as nat)
        + " × "@
        + bytes_text(p.udp_rx_slot_bytes)
        + " = "@
        + bytes_text(p.udp_rx_payload_bytes)
        + " · TUN RX "@
        + bytes_text(p.tun_rx_payload_bytes)
        + " · всего payload "@
        + bytes_text(p.fixed_payload_bytes)
        + "\nUDP SO_RCVBUF request "@
        + bytes_text(p.udp_socket_rcvbuf_request_bytes)
        + " · SO_SNDBUF request "@
        + bytes_text(p.udp_socket_sndbuf_request_bytes)
        + "\n\n"@
}

fn buffers_part_chars(p: &FixedBuffers) -> (r: Vec<char>)
    ensures
        r@ == buffers_part(*p),
{
    let mut out = chars_of("[Пул пакетов CSQTT — live payload, не утечка]\nPacket pool capacity ");
    push_number(&mut out, p.packet_pool_capacity_slots as u64);
    push_text(&mut out, " · выделено ");
    push_number(&mut out, p.packet_pool_allocated_slots as u64);
    push_text(&mut out, " (");
    push_bytes_text(&mut out, p.packet_pool_allocated_payload_bytes);
    push_text(&mut out, ") · удерживается ");
    push_number(&mut out, p.packet_pool_retained_slots as u64);
    push_text(&mut out, "\nUDP TX capacity ");
    push_number(&mut out, p.udp_tx_slots as u64);
    push_text(&mut out, " × ");
    push_bytes_text(&mut out, p.packet_capacity_bytes);
    push_text(&mut out, " = ");
    push_bytes_text(&mut out, p.udp_tx_payload_bytes);
    push_text(&mut out, " · занято ");
    push_number(&mut out, p.udp_tx_in_use_slots as u64);
    push_text(&mut out, "/");
    push_number(&mut out, p.udp_tx_slots as u64);
    push_text(&mut out, "\nTUN TX capacity ");
    push_number(&mut out, p.tun_tx_slots as u64);
    push_text(&mut out, " × ");
    push_bytes_text(&mut out, p.packet_capacity_bytes);
    push_text(&mut out, " = ");
    push_bytes_text(&mut out, p.tun_tx_payload_bytes);
    push_text(&mut out, " · занято ");
    push_number(&mut out, p.tun_tx_in_use_slots as u64);
    push_text(&mut out, "/");
    push_number(&mut out, p.tun_tx_slots as u64);
    push_text(&mut out, "\nUDP RX ");
    push_text(&mut out, p.udp_rx_mode.as_str());
    push_text(&mut out, ": ");
    push_number(&mut out, p.udp_rx_slots as u64);
    push_text(&mut out, " × ");
    push_bytes_text(&mut out, p.udp_rx_slot_bytes);
    push_text(&mut out, " = ");
    push_bytes_text(&mut out, p.udp_rx_payload_bytes);
    push_text(&mut out, " · TUN RX ");
    push_bytes_text(&mut out, p.tun_rx_payload_bytes);
    push_text(&mut out, " · всего payload ");
    push_bytes_text(&mut out, p.fixed_payload_bytes);
    push_text(&mut out, "\nUDP SO_RCVBUF request ");
    push_bytes_text(&mut out, p.udp_socket_rcvbuf_request_bytes);
    push_text(&mut out, " · SO_SNDBUF request ");
    push_bytes_text(&mut out, p.udp_socket_sndbuf_request_bytes);
    push_text(&mut out, "\n\n");
    out
}

/// The section on what the server holds.
pub open spec fn runtime_part(p: RuntimeMemory) -> Seq<char> {
    "[Удерживаемые структуры runtime — allocator "@
        + p.allocator@
        + "]\nhot transport sessions "@
        + dec(p.hot_sessions as nat)
        + "/"@
        + dec(p.hot_session_capacity as nat)
        + " (жёсткий "@
        + dec(p.hot_session_limit as nat)
        + ") · public sessions "@
        + dec(p.public_sessions as nat)
        + " / capacity "@
        + dec(p.public_session_capacity as nat)
        + " · streams/device до "@
        + dec(p.max_stream_workers_per_device as nat)
        + "\nepochs engine/device "@
        + dec(p.engine_epochs as nat)
        + "/"@
        + dec(p.device_epochs as nat)
        + " (capacity "@
        + dec(p.device_epoch_capacity as nat)
        + ") · derived keys "@
        + dec(p.derived_keys as nat)
        + " (key strings "@
        + bytes_text(p.derived_key_string_capacity_bytes)
        + ")\nweb sessions "@
        + dec(p.web_sessions as nat)
        + "/"@
        + dec(p.web_session_limit as nat)
        + " (keys "@
        + bytes_text(p.web_session_key_capacity_bytes)
        + ") · login limits "@
        + dec(p.login_limits as nat)
        + "/"@
        + dec(p.login_limit_limit as nat)
        + " (keys "@
        + bytes_text(p.login_limit_key_capacity_bytes)
        + ")\nlogs "@
        + dec(p.log_entries as nat)
        + "/"@
        + dec(p.log_entry_limit as nat)
        + " (strings "@
        + bytes_text(p.log_string_capacity_bytes)
        + ", metadata "@
        + bytes_text(p.log_ring_metadata_capacity_bytes)
        + ") · DPI "@
        + dec(p.dpi_entries as nat)
        + "/"@
        + dec(p.dpi_entry_capacity as nat)
        + " (retained "@
        + bytes_text(p.dpi_retained_bytes)
        + ")\nstream repair/inventory "@
        + dec(p.stream_repairs as nat)
        + "/"@
        + dec(p.stream_inventory as nat)
        + " · dataplane commands "@
        + dec(p.dataplane_commands_queued as nat)
        + "/"@
        + dec(p.dataplane_command_capacity as nat)
        + " · memory trim "@
        + dec(p.memory_trim_count as nat)
        + "\n\n"@
}

fn runtime_part_chars(p: &RuntimeMemory) -> (r: Vec<char>)
    ensures
        r@ == runtime_part(*p),
{
    let mut out = chars_of("[Удерживаемые структуры runtime — allocator ");
    push_text(&mut out, p.allocator.as_str());
    push_text(&mut out, "]\nhot transport sessions ");
    push_number(&mut out, p.hot_sessions as u64);
    push_text(&mut out, "/");
    push_number(&mut out, p.hot_session_capacity as u64);
    push_text(&mut out, " (жёсткий ");
    push_number(&mut out, p.hot_session_limit as u64);
    push_text(&mut out, ") · public sessions ");
    push_number(&mut out, p.public_sessions as u64);
    push_text(&mut out, " / capacity ");
    push_number(&mut out, p.public_session_capacity as u64);
    push_text(&mut out, " · streams/device до ");
    push_number(&mut out, p.max_stream_workers_per_device as u64);
    push_text(&mut out, "\nepochs engine/device ");
    push_number(&mut out, p.engine_epochs as u64);
    push_text(&mut out, "/");
    push_number(&mut out, p.device_epochs as u64);
    push_text(&mut out, " (capacity ");
    push_number(&mut out, p.device_epoch_capacity as u64);
    push_text(&mut out, ") · derived keys ");
    push_number(&mut out, p.derived_keys as u64);
    push_text(&mut out, " (key strings ");
    push_bytes_text(&mut out, p.derived_key_string_capacity_bytes);
    push_text(&mut out, ")\nweb sessions ");
    push_number(&mut out, p.web_sessions as u64);
    push_text(&mut out, "/");
    push_number(&mut out, p.web_session_limit as u64);
    push_text(&mut out, " (keys ");
    push_bytes_text(&mut out, p.web_session_key_capacity_bytes);
    push_text(&mut out, ") · login limits ");
    push_number(&mut out, p.login_limits as u64);
    push_text(&mut out, "/");
    push_number(&mut out, p.login_limit_limit as u64);
    push_text(&mut out, " (keys ");
    push_bytes_text(&mut out, p.login_limit_key_capacity_bytes);
    push_text(&mut out, ")\nlogs ");
    push_number(&mut out, p.log_entries as u64);
    push_text(&mut out, "/");
    push_number(&mut out, p.log_entry_limit as u64);
    push_text(&mut out, " (strings ");
    push_bytes_text(&mut out, p.log_string_capacity_bytes);
    push_text(&mut out, ", metadata ");
    push_bytes_text(&mut out, p.log_ring_metadata_capacity_bytes);
    push_text(&mut out, ") · DPI ");
    push_number(&mut out, p.dpi_entries as u64);
    push_text(&mut out, "/");
    push_number(&mut out, p.dpi_entry_capacity as u64);
    push_text(&mut out, " (retained ");
    push_bytes_text(&mut out, p.dpi_retained_bytes);
    push_text(&mut out, ")\nstream repair/inventory ");
    push_number(&mut out, p.stream_repairs as u64);
    push_text(&mut out, "/");
    push_number(&mut out, p.stream_inventory as u64);
    push_text(&mut out, " · dataplane commands ");
    push_number(&mut out, p.dataplane_commands_queued as u64);
    push_text(&mut out, "/");
    push_number(&mut out, p.dataplane_command_capacity as u64);
    push_text(&mut out, " · memory trim ");
    push_number(&mut out, p.memory_trim_count as u64);
    push_text(&mut out, "\n\n");
    out
}

/// The section on the local proxy.
pub open spec fn proxy_part(p: RuntimeMemory) -> Seq<char> {
    "[Local SOCKS / TPROXY]\n"@
        + (if p.local_proxy_active {
        "активен"@
    } else {
        "не активен"@
    })
        + " · TCP "@
        + dec(p.local_proxy_tcp_sessions as nat)
        + "/"@
        + dec(p.local_proxy_tcp_limit as nat)
        + " · UDP "@
        + dec(p.local_proxy_udp_flows as nat)
        + "/"@
        + dec(p.local_proxy_udp_limit as nat)
        + " · payload выделено "@
        + bytes_text(p.local_proxy_payload_allocated_bytes)
        + " · удерживается "@
        + bytes_text(p.local_proxy_payload_retained_bytes)
        + "\nopening buffers "@
        + bytes_text(p.local_proxy_opening_buffer_allocated_bytes)
        + " · payload upper bound на полном лимите "@
        + bytes_text(p.local_proxy_payload_upper_bound_at_limit_bytes)
        + " · kernel TCP/UDP buffers — cgroup sock выше\n\n"@
}

fn proxy_part_chars(p: &RuntimeMemory) -> (r: Vec<char>)
    ensures
        r@ == proxy_part(*p),
{
    let mut out = chars_of("[Local SOCKS / TPROXY]\n");
    if p.local_proxy_active {
        push_text(&mut out, "активен");
    } else {
        push_text(&mut out, "не активен");
    }
    push_text(&mut out, " · TCP ");
    push_number(&mut out, p.local_proxy_tcp_sessions as u64);
    push_text(&mut out, "/");
    push_number(&mut out, p.local_proxy_tcp_limit as u64);
    push_text(&mut out, " · UDP ");
    push_number(&mut out, p.local_proxy_udp_flows as u64);
    push_text(&mut out, "/");
    push_number(&mut out, p.local_proxy_udp_limit as u64);
    push_text(&mut out, " · payload выделено ");
    push_bytes_text(&mut out, p.local_proxy_payload_allocated_bytes);
    push_text(&mut out, " · удерживается ");
    push_bytes_text(&mut out, p.local_proxy_payload_retained_bytes);
    push_text(&mut out, "\nopening buffers ");
    push_bytes_text(&mut out, p.local_proxy_opening_buffer_allocated_bytes);
    push_text(&mut out, " · payload upper bound на полном лимите ");
    push_bytes_text(&mut out, p.local_proxy_payload_upper_bound_at_limit_bytes);
    push_text(&mut out, " · kernel TCP/UDP buffers — cgroup sock выше\n\n");
    out
}

/// The section on storage, and the closing remark.
pub open spec fn storage_part(p: StorageSizes) -> Seq<char> {
    "[Persistent storage — диск, не RSS]\nSQLite db "@
        + bytes_text(p.sqlite_db_bytes)
        + " · WAL "@
        + bytes_text(p.sqlite_wal_bytes)
        + " · SHM "@
        + bytes_text(p.sqlite_shm_bytes)
        + " · log "@
        + bytes_text(p.log_file_bytes)
        + "\n\nИнтерпретация: растут VmRSS/PSS/RssAnon — ищем удержание в процессе; RSS низкий, а cgroup sock/slab/file высокий — это ядро/cache/другие PID той же группы.\n"@
}

fn storage_part_chars(p: &StorageSizes) -> (r: Vec<char>)
    ensures
        r@ == storage_part(*p),
{
    let mut out = chars_of("[Persistent storage — диск, не RSS]\nSQLite db ");
    push_bytes_text(&mut out, p.sqlite_db_bytes);
    push_text(&mut out, " · WAL ");
    push_bytes_text(&mut out, p.sqlite_wal_bytes);
    push_text(&mut out, " · SHM ");
    push_bytes_text(&mut out, p.sqlite_shm_bytes);
    push_text(&mut out, " · log ");
    push_bytes_text(&mut out, p.log_file_bytes);
    push_text(&mut out, "\n\nИнтерпретация: растут VmRSS/PSS/RssAnon — ищем удержание в процессе; RSS низкий, а cgroup sock/slab/file высокий — это ядро/cache/другие PID той же группы.\n");
    out
}

/// The whole report.
pub open spec fn metric_report(frame: MetricFrame) -> Seq<char> {
    metric_head(frame.pid) + process_part(
        frame.process,
    ) + rollup_part(
        frame.smaps_rollup,
    ) + mappings_part(
        frame.mappings,
    ) + cgroup_part(
        frame.cgroup,
    ) + sockets_part(
        frame.sockets,
    ) + buffers_part(
        frame.fixed_buffers,
    ) + runtime_part(
        frame.runtime,
    ) + proxy_part(
        frame.runtime,
    ) + storage_part(
        frame.storage,
    )
}

/// Writes the whole report.
pub fn render_metric_all(frame: &MetricFrame) -> (r: String)
    ensures
        r@ == metric_report(*frame),
{
    let mut out = metric_head_chars(&frame.pid);
    let part = process_part_chars(&frame.process);
    push_chars(&mut out, part.as_slice());
    let part = rollup_part_chars(&frame.smaps_rollup);
    push_chars(&mut out, part.as_slice());
    let part = mappings_part_chars(&frame.mappings);
    push_chars(&mut out, part.as_slice());
    let part = cgroup_part_chars(&frame.cgroup);
    push_chars(&mut out, part.as_slice());
    let part = sockets_part_chars(&frame.sockets);
    push_chars(&mut out, part.as_slice());
    let part = buffers_part_chars(&frame.fixed_buffers);
    push_chars(&mut out, part.as_slice());
    let part = runtime_part_chars(&frame.runtime);
    push_chars(&mut out, part.as_slice());
    let part = proxy_part_chars(&frame.runtime);
    push_chars(&mut out, part.as_slice());
    let part = storage_part_chars(&frame.storage);
    push_chars(&mut out, part.as_slice());
    string_of(out.as_slice())
}

/// Every figure of the process stands behind its label.
pub proof fn law_process_figures_have_labels(p: ProcessMemory)
    ensures
        p.available ==> contains_text(
            process_part(p),
            "[Процесс /proc/self/status]\nRSS "@
                + kib_text(p.rss_kib)
                + " · пик VmHWM "@
                + kib_text(p.peak_rss_kib)
                + " · потоки "@
                + dec(p.threads as nat)
                + " · swap "@
                + kib_text(p.swap_kib)
                + "\nRSS-состав: anon "@,
        ),
        p.available ==> contains_text(
            process_part(p),
            "\nRSS-состав: anon "@
                + kib_text(p.anonymous_kib)
                + " · file "@
                + kib_text(p.file_kib)
                + " · shmem "@
                + kib_text(p.shmem_kib)
                + "\n\n"@,
        ),
        !p.available ==> process_part(p) == "[Процесс] /proc/self/status недоступен\n\n"@,
{
    if p.available {
        let (s, line) = first_part("[Процесс /proc/self/status]\nRSS "@);
        let (s, line) = next_part(s, line, kib_text(p.rss_kib));
        let (s, line) = next_part(s, line, " · пик VmHWM "@);
        let (s, line) = next_part(s, line, kib_text(p.peak_rss_kib));
        let (s, line) = next_part(s, line, " · потоки "@);
        let (s, line) = next_part(s, line, dec(p.threads as nat));
        let (s, line) = next_part(s, line, " · swap "@);
        let (s, line) = next_part(s, line, kib_text(p.swap_kib));
        let (s, line) = last_part(s, line, "\nRSS-состав: anon "@);
        let (s, line) = next_part(s, line, kib_text(p.anonymous_kib));
        let (s, line) = next_part(s, line, " · file "@);
        let (s, line) = next_part(s, line, kib_text(p.file_kib));
        let (s, line) = next_part(s, line, " · shmem "@);
        let (s, line) = next_part(s, line, kib_text(p.shmem_kib));
        let (s, line) = last_part(s, line, "\n\n"@);
        lemma_shown(s);
    }
}

/// Every figure of the mapped memory stands behind its label.
pub proof fn law_rollup_figures_have_labels(p: RollupMemory)
    ensures
        p.available ==> contains_text(
            rollup_part(p),
            "[smaps_rollup — более честная доля памяти процесса]\nRss "@
                + kib_text(p.rss_kib)
                + " · Pss "@
                + kib_text(p.pss_kib)
                + " · private "@
                + kib_text(p.private_kib)
                + " · shared "@
                + kib_text(p.shared_kib)
                + " · Swap "@
                + kib_text(p.swap_kib)
                + " / SwapPss "@
                + kib_text(p.swap_pss_kib)
                + "\nPSS-состав: anon "@,
        ),
        p.available ==> contains_text(
            rollup_part(p),
            "\nPSS-состав: anon "@
                + kib_text(p.pss_anon_kib)
                + " · file "@
                + kib_text(p.pss_file_kib)
                + " · shmem "@
                + kib_text(p.pss_shmem_kib)
                + " · Anonymous RSS-like "@
                + kib_text(p.anonymous_kib)
                + "\n\n"@,
        ),
        !p.available ==> rollup_part(p) == "[smaps_rollup] недоступен\n\n"@,
{
    if p.available {
        let (s, line) = first_part("[smaps_rollup — более честная доля памяти процесса]\nRss "@);
        let (s, line) = next_part(s, line, kib_text(p.rss_kib));
        let (s, line) = next_part(s, line, " · Pss "@);
        let (s, line) = next_part(s, line, kib_text(p.pss_kib));
        let (s, line) = next_part(s, line, " · private "@);
        let (s, line) = next_part(s, line, kib_text(p.private_kib));
        let (s, line) = next_part(s, line, " · shared "@);
        let (s, line) = next_part(s, line, kib_text(p.shared_kib));
        let (s, line) = next_part(s, line, " · Swap "@);
        let (s, line) = next_part(s, line, kib_text(p.swap_kib));
        let (s, line) = next_part(s, line, " / SwapPss "@);
        let (s, line) = next_part(s, line, kib_text(p.swap_pss_kib));
        let (s, line) = last_part(s, line, "\nPSS-состав: anon "@);
        let (s, line) = next_part(s, line, kib_text(p.pss_anon_kib));
        let (s, line) = next_part(s, line, " · file "@);
        let (s, line) = next_part(s, line, kib_text(p.pss_file_kib));
        let (s, line) = next_part(s, line, " · shmem "@);
        let (s, line) = next_part(s, line, kib_text(p.pss_shmem_kib));
        let (s, line) = next_part(s, line, " · Anonymous RSS-like "@);
        let (s, line) = next_part(s, line, kib_text(p.anonymous_kib));
        let (s, line) = last_part(s, line, "\n\n"@);
        lemma_shown(s);
    }
}

/// Every figure of the control group stands behind its label.
pub proof fn law_group_figures_have_labels(p: CgroupMemory)
    ensures
        p.available ==> contains_text(
            cgroup_part(p),
            "[cgroup memory."@
                + p.version@
                + " — группа, не только Rust heap]\ncurrent "@,
        ),
        p.available ==> contains_text(
            cgroup_part(p),
            " — группа, не только Rust heap]\ncurrent "@
                + bytes_text(p.current_bytes)
                + " · peak "@
                + bytes_text(p.peak_bytes)
                + " · max "@
                + limit_text(p.max_bytes)
                + " · swap current "@
                + limit_text(p.swap_current_bytes)
                + " · swap max "@
                + limit_text(p.swap_max_bytes)
                + "\nanon "@,
        ),
        p.available ==> contains_text(
            cgroup_part(p),
            "\nanon "@
                + bytes_text(p.anon_bytes)
                + " · file "@
                + bytes_text(p.file_bytes)
                + " · shmem "@
                + bytes_text(p.shmem_bytes)
                + " · sock "@
                + bytes_text(p.sock_bytes)
                + " · kernel_stack "@
                + bytes_text(p.kernel_stack_bytes)
                + " · pagetables "@
                + bytes_text(p.pagetables_bytes)
                + " · percpu "@
                + bytes_text(p.percpu_bytes)
                + "\nslab reclaimable "@,
        ),
        p.available ==> contains_text(
            cgroup_part(p),
            "\nslab reclaimable "@
                + bytes_text(p.slab_reclaimable_bytes)
                + " · slab unreclaimable "@
                + bytes_text(p.slab_unreclaimable_bytes)
                + " · file_mapped "@
                + bytes_text(p.file_mapped_bytes)
                + " · file_dirty "@
                + bytes_text(p.file_dirty_bytes)
                + "\n\n"@,
        ),
        !p.available ==> cgroup_part(p) == "[cgroup memory] недоступна\n\n"@,
{
    if p.available {
        let (s, line) = first_part("[cgroup memory."@);
        let (s, line) = next_part(s, line, p.version@);
        let (s, line) = last_part(s, line, " — группа, не только Rust heap]\ncurrent "@);
        let (s, line) = next_part(s, line, bytes_text(p.current_bytes));
        let (s, line) = next_part(s, line, " · peak "@);
        let (s, line) = next_part(s, line, bytes_text(p.peak_bytes));
        let (s, line) = next_part(s, line, " · max "@);
        let (s, line) = next_part(s, line, limit_text(p.max_bytes));
        let (s, line) = next_part(s, line, " · swap current "@);
        let (s, line) = next_part(s, line, limit_text(p.swap_current_bytes));
        let (s, line) = next_part(s, line, " · swap max "@);
        let (s, line) = next_part(s, line, limit_text(p.swap_max_bytes));
        let (s, line) = last_part(s, line, "\nanon "@);
        let (s, line) = next_part(s, line, bytes_text(p.anon_bytes));
        let (s, line) = next_part(s, line, " · file "@);
        let (s, line) = next_part(s, line, bytes_text(p.file_bytes));
        let (s, line) = next_part(s, line, " · shmem "@);
        let (s, line) = next_part(s, line, bytes_text(p.shmem_bytes));
        let (s, line) = next_part(s, line, " · sock "@);
        let (s, line) = next_part(s, line, bytes_text(p.sock_bytes));
        let (s, line) = next_part(s, line, " · kernel_stack "@);
        let (s, line) = next_part(s, line, bytes_text(p.kernel_stack_bytes));
        let (s, line) = next_part(s, line, " · pagetables "@);
        let (s, line) = next_part(s, line, bytes_text(p.pagetables_bytes));
        let (s, line) = next_part(s, line, " · percpu "@);
        let (s, line) = next_part(s, line, bytes_text(p.percpu_bytes));
        let (s, line) = last_part(s, line, "\nslab reclaimable "@);
        let (s, line) = next_part(s, line, bytes_text(p.slab_reclaimable_bytes));
        let (s, line) = next_part(s, line, " · slab unreclaimable "@);
        let (s, line) = next_part(s, line, bytes_text(p.slab_unreclaimable_bytes));
        let (s, line) = next_part(s, line, " · file_mapped "@);
        let (s, line) = next_part(s, line, bytes_text(p.file_mapped_bytes));
        let (s, line) = next_part(s, line, " · file_dirty "@);
        let (s, line) = next_part(s, line, bytes_text(p.file_dirty_bytes));
        let (s, line) = last_part(s, line, "\n\n"@);
        lemma_shown(s);
    }
}

/// Every figure of the sockets stands behind its label.
pub proof fn law_socket_figures_have_labels(p: SocketMemory)
    ensures
        p.available ==> contains_text(
            sockets_part(p),
            "[Сокеты процесса — только текущие очереди payload]\nFD socket "@
                + dec(p.socket_fds as nat)
                + " · UDP "@
                + dec(p.udp_sockets as nat)
                + " (TX "@
                + bytes_text(p.udp_tx_queue_bytes)
                + " / RX "@
                + bytes_text(p.udp_rx_queue_bytes)
                + ") · TCP "@
                + dec(p.tcp_sockets as nat)
                + " (TX "@
                + bytes_text(p.tcp_tx_queue_bytes)
                + " / RX "@
                + bytes_text(p.tcp_rx_queue_bytes)
                + ")\nПолное kernel socket allocation смотри выше в cgroup `sock`, а не в этой очереди.\n\n"@,
        ),
        !p.available ==> sockets_part(p) == Seq::<char>::empty(),
{
    if p.available {
        let (s, line) = first_part("[Сокеты процесса — только текущие очереди payload]\nFD socket "@);
        let (s, line) = next_part(s, line, dec(p.socket_fds as nat));
        let (s, line) = next_part(s, line, " · UDP "@);
        let (s, line) = next_part(s, line, dec(p.udp_sockets as nat));
        let (s, line) = next_part(s, line, " (TX "@);
        let (s, line) = next_part(s, line, bytes_text(p.udp_tx_queue_bytes));
        let (s, line) = next_part(s, line, " / RX "@);
        let (s, line) = next_part(s, line, bytes_text(p.udp_rx_queue_bytes));
        let (s, line) = next_part(s, line, ") · TCP "@);
        let (s, line) = next_part(s, line, dec(p.tcp_sockets as nat));
        let (s, line) = next_part(s, line, " (TX "@);
        let (s, line) = next_part(s, line, bytes_text(p.tcp_tx_queue_bytes));
        let (s, line) = next_part(s, line, " / RX "@);
        let (s, line) = next_part(s, line, bytes_text(p.tcp_rx_queue_bytes));
        let (s, line) = last_part(s, line, ")\nПолное kernel socket allocation смотри выше в cgroup `sock`, а не в этой очереди.\n\n"@);
        lemma_shown(s);
    }
}

/// Every figure of a mapping stands behind its label, in a column of its own.
pub proof fn law_mapping_figures_have_labels(p: MappingCategory)
    ensures
        contains_text(
            mapping_line(p),
            pad_right(p.category@, 24)
                + " RSS "@
                + pad_left(kib_text(p.rss_kib), 10)
                + " · PSS "@
                + pad_left(kib_text(p.pss_kib), 10)
                + " · private "@
                + pad_left(kib_text(p.private_kib), 10)
                + " · shared "@
                + pad_left(kib_text(p.shared_kib), 10)
                + "\n"@,
        ),
{
    let (s, line) = first_part(pad_right(p.category@, 24));
    let (s, line) = next_part(s, line, " RSS "@);
    let (s, line) = next_part(s, line, pad_left(kib_text(p.rss_kib), 10));
    let (s, line) = next_part(s, line, " · PSS "@);
    let (s, line) = next_part(s, line, pad_left(kib_text(p.pss_kib), 10));
    let (s, line) = next_part(s, line, " · private "@);
    let (s, line) = next_part(s, line, pad_left(kib_text(p.private_kib), 10));
    let (s, line) = next_part(s, line, " · shared "@);
    let (s, line) = next_part(s, line, pad_left(kib_text(p.shared_kib), 10));
    let (s, line) = last_part(s, line, "\n"@);
    lemma_shown(s);
}

/// Every figure of the buffers stands behind its label.
pub proof fn law_buffer_figures_have_labels(p: FixedBuffers)
    ensures
        contains_text(
            buffers_part(p),
            "[Пул пакетов CSQTT — live payload, не утечка]\nPacket pool capacity "@
                + dec(p.packet_pool_capacity_slots as nat)
                + " · выделено "@
                + dec(p.packet_pool_allocated_slots as nat)
                + " ("@
                + bytes_text(p.packet_pool_allocated_payload_bytes)
                + ") · удерживается "@
                + dec(p.packet_pool_retained_slots as nat)
                + "\nUDP TX capacity "@,
        ),
        contains_text(
            buffers_part(p),
            "\nUDP TX capacity "@
                + dec(p.udp_tx_slots as nat)
                + " × "@
                + bytes_text(p.packet_capacity_bytes)
                + " = "@
                + bytes_text(p.udp_tx_payload_bytes)
                + " · занято "@
                + dec(p.udp_tx_in_use_slots as nat)
                + "/"@
                + dec(p.udp_tx_slots as nat)
                + "\nTUN TX capacity "@,
        ),
        contains_text(
            buffers_part(p),
            "\nTUN TX capacity "@
                + dec(p.tun_tx_slots as nat)
                + " × "@
                + bytes_text(p.packet_capacity_bytes)
                + " = "@
                + bytes_text(p.tun_tx_payload_bytes)
                + " · занято "@
                + dec(p.tun_tx_in_use_slots as nat)
                + "/"@
                + dec(p.tun_tx_slots as nat)
                + "\nUDP RX "@,
        ),
        contains_text(
            buffers_part(p),
            "\nUDP RX "@
                + p.udp_rx_mode@
                + ": "@
                + dec(p.udp_rx_slots as nat)
                + " × "@
                + bytes_text(p.udp_rx_slot_bytes)
                + " = "@
                + bytes_text(p.udp_rx_payload_bytes)
                + " · TUN RX "@
                + bytes_text(p.tun_rx_payload_bytes)
                + " · всего payload "@
                + bytes_text(p.fixed_payload_bytes)
                + "\nUDP SO_RCVBUF request "@,
        ),
        contains_text(
            buffers_part(p),
            "\nUDP SO_RCVBUF request "@
                + bytes_text(p.udp_socket_rcvbuf_request_bytes)
                + " · SO_SNDBUF request "@
                + bytes_text(p.udp_socket_sndbuf_request_bytes)
                + "\n\n"@,
        ),
{
    let (s, line) = first_part("[Пул пакетов CSQTT — live payload, не утечка]\nPacket pool capacity "@);
    let (s, line) = next_part(s, line, dec(p.packet_pool_capacity_slots as nat));
    let (s, line) = next_part(s, line, " · выделено "@);
    let (s, line) = next_part(s, line, dec(p.packet_pool_allocated_slots as nat));
    let (s, line) = next_part(s, line, " ("@);
    let (s, line) = next_part(s, line, bytes_text(p.packet_pool_allocated_payload_bytes));
    let (s, line) = next_part(s, line, ") · удерживается "@);
    let (s, line) = next_part(s, line, dec(p.packet_pool_retained_slots as nat));
    let (s, line) = last_part(s, line, "\nUDP TX capacity "@);
    let (s, line) = next_part(s, line, dec(p.udp_tx_slots as nat));
    let (s, line) = next_part(s, line, " × "@);
    let (s, line) = next_part(s, line, bytes_text(p.packet_capacity_bytes));
    let (s, line) = next_part(s, line, " = "@);
    let (s, line) = next_part(s, line, bytes_text(p.udp_tx_payload_bytes));
    let (s, line) = next_part(s, line, " · занято "@);
    let (s, line) = next_part(s, line, dec(p.udp_tx_in_use_slots as nat));
    let (s, line) = next_part(s, line, "/"@);
    let (s, line) = next_part(s, line, dec(p.udp_tx_slots as nat));
    let (s, line) = last_part(s, line, "\nTUN TX capacity "@);
    let (s, line) = next_part(s, line, dec(p.tun_tx_slots as nat));
    let (s, line) = next_part(s, line, " × "@);
    let (s, line) = next_part(s, line, bytes_text(p.packet_capacity_bytes));
    let (s, line) = next_part(s, line, " = "@);
    let (s, line) = next_part(s, line, bytes_text(p.tun_tx_payload_bytes));
    let (s, line) = next_part(s, line, " · занято "@);
    let (s, line) = next_part(s, line, dec(p.tun_tx_in_use_slots as nat));
    let (s, line) = next_part(s, line, "/"@);
    let (s, line) = next_part(s, line, dec(p.tun_tx_slots as nat));
    let (s, line) = last_part(s, line, "\nUDP RX "@);
    let (s, line) = next_part(s, line, p.udp_rx_mode@);
    let (s, line) = next_part(s, line, ": "@);
    let (s, line) = next_part(s, line, dec(p.udp_rx_slots as nat));
    let (s, line) = next_part(s, line, " × "@);
    let (s, line) = next_part(s, line, bytes_text(p.udp_rx_slot_bytes));
    let (s, line) = next_part(s, line, " = "@);
    let (s, line) = next_part(s, line, bytes_text(p.udp_rx_payload_bytes));
    let (s, line) = next_part(s, line, " · TUN RX "@);
    let (s, line) = next_part(s, line, bytes_text(p.tun_rx_payload_bytes));
    let (s, line) = next_part(s, line, " · всего payload "@);
    let (s, line) = next_part(s, line, bytes_text(p.fixed_payload_bytes));
    let (s, line) = last_part(s, line, "\nUDP SO_RCVBUF request "@);
    let (s, line) = next_part(s, line, bytes_text(p.udp_socket_rcvbuf_request_bytes));
    let (s, line) = next_part(s, line, " · SO_SNDBUF request "@);
    let (s, line) = next_part(s, line, bytes_text(p.udp_socket_sndbuf_request_bytes));
    let (s, line) = last_part(s, line, "\n\n"@);
    lemma_shown(s);
}

/// Every figure of the runtime stands behind its label.
pub proof fn law_runtime_figures_have_labels(p: RuntimeMemory)
    ensures
        contains_text(
            runtime_part(p),
            "[Удерживаемые структуры runtime — allocator "@
                + p.allocator@
                + "]\nhot transport sessions "@,
        ),
        contains_text(
            runtime_part(p),
            "]\nhot transport sessions "@
                + dec(p.hot_sessions as nat)
                + "/"@
                + dec(p.hot_session_capacity as nat)
                + " (жёсткий "@
                + dec(p.hot_session_limit as nat)
                + ") · public sessions "@
                + dec(p.public_sessions as nat)
                + " / capacity "@
                + dec(p.public_session_capacity as nat)
                + " · streams/device до "@
                + dec(p.max_stream_workers_per_device as nat)
                + "\nepochs engine/device "@,
        ),
        contains_text(
            runtime_part(p),
            "\nepochs engine/device "@
                + dec(p.engine_epochs as nat)
                + "/"@
                + dec(p.device_epochs as nat)
                + " (capacity "@
                + dec(p.device_epoch_capacity as nat)
                + ") · derived keys "@
                + dec(p.derived_keys as nat)
                + " (key strings "@
                + bytes_text(p.derived_key_string_capacity_bytes)
                + ")\nweb sessions "@,
        ),
        contains_text(
            runtime_part(p),
            ")\nweb sessions "@
                + dec(p.web_sessions as nat)
                + "/"@
                + dec(p.web_session_limit as nat)
                + " (keys "@
                + bytes_text(p.web_session_key_capacity_bytes)
                + ") · login limits "@
                + dec(p.login_limits as nat)
                + "/"@
                + dec(p.login_limit_limit as nat)
                + " (keys "@
                + bytes_text(p.login_limit_key_capacity_bytes)
                + ")\nlogs "@,
        ),
        contains_text(
            runtime_part(p),
            ")\nlogs "@
                + dec(p.log_entries as nat)
                + "/"@
                + dec(p.log_entry_limit as nat)
                + " (strings "@
                + bytes_text(p.log_string_capacity_bytes)
                + ", metadata "@
                + bytes_text(p.log_ring_metadata_capacity_bytes)
                + ") · DPI "@
                + dec(p.dpi_entries as nat)
                + "/"@
                + dec(p.dpi_entry_capacity as nat)
                + " (retained "@
                + bytes_text(p.dpi_retained_bytes)
                + ")\nstream repair/inventory "@,
        ),
        contains_text(
            runtime_part(p),
            ")\nstream repair/inventory "@
                + dec(p.stream_repairs as nat)
                + "/"@
                + dec(p.stream_inventory as nat)
                + " · dataplane commands "@
                + dec(p.dataplane_commands_queued as nat)
                + "/"@
                + dec(p.dataplane_command_capacity as nat)
                + " · memory trim "@
                + dec(p.memory_trim_count as nat)
                + "\n\n"@,
        ),
{
    let (s, line) = first_part("[Удерживаемые структуры runtime — allocator "@);
    let (s, line) = next_part(s, line, p.allocator@);
    let (s, line) = last_part(s, line, "]\nhot transport sessions "@);
    let (s, line) = next_part(s, line, dec(p.hot_sessions as nat));
    let (s, line) = next_part(s, line, "/"@);
    let (s, line) = next_part(s, line, dec(p.hot_session_capacity as nat));
    let (s, line) = next_part(s, line, " (жёсткий "@);
    let (s, line) = next_part(s, line, dec(p.hot_session_limit as nat));
    let (s, line) = next_part(s, line, ") · public sessions "@);
    let (s, line) = next_part(s, line, dec(p.public_sessions as nat));
    let (s, line) = next_part(s, line, " / capacity "@);
    let (s, line) = next_part(s, line, dec(p.public_session_capacity as nat));
    let (s, line) = next_part(s, line, " · streams/device до "@);
    let (s, line) = next_part(s, line, dec(p.max_stream_workers_per_device as nat));
    let (s, line) = last_part(s, line, "\nepochs engine/device "@);
    let (s, line) = next_part(s, line, dec(p.engine_epochs as nat));
    let (s, line) = next_part(s, line, "/"@);
    let (s, line) = next_part(s, line, dec(p.device_epochs as nat));
    let (s, line) = next_part(s, line, " (capacity "@);
    let (s, line) = next_part(s, line, dec(p.device_epoch_capacity as nat));
    let (s, line) = next_part(s, line, ") · derived keys "@);
    let (s, line) = next_part(s, line, dec(p.derived_keys as nat));
    let (s, line) = next_part(s, line, " (key strings "@);
    let (s, line) = next_part(s, line, bytes_text(p.derived_key_string_capacity_bytes));
    let (s, line) = last_part(s, line, ")\nweb sessions "@);
    let (s, line) = next_part(s, line, dec(p.web_sessions as nat));
    let (s, line) = next_part(s, line, "/"@);
    let (s, line) = next_part(s, line, dec(p.web_session_limit as nat));
    let (s, line) = next_part(s, line, " (keys "@);
    let (s, line) = next_part(s, line, bytes_text(p.web_session_key_capacity_bytes));
    let (s, line) = next_part(s, line, ") · login limits "@);
    let (s, line) = next_part(s, line, dec(p.login_limits as nat));
    let (s, line) = next_part(s, line, "/"@);
    let (s, line) = next_part(s, line, dec(p.login_limit_limit as nat));
    let (s, line) = next_part(s, line, " (keys "@);
    let (s, line) = next_part(s, line, bytes_text(p.login_limit_key_capacity_bytes));
    let (s, line) = last_part(s, line, ")\nlogs "@);
    let (s, line) = next_part(s, line, dec(p.log_entries as nat));
    let (s, line) = next_part(s, line, "/"@);
    let (s, line) = next_part(s, line, dec(p.log_entry_limit as nat));
    let (s, line) = next_part(s, line, " (strings "@);
    let (s, line) = next_part(s, line, bytes_text(p.log_string_capacity_bytes));
    let (s, line) = next_part(s, line, ", metadata "@);
    let (s, line) = next_part(s, line, bytes_text(p.log_ring_metadata_capacity_bytes));
    let (s, line) = next_part(s, line, ") · DPI "@);
    let (s, line) = next_part(s, line, dec(p.dpi_entries as nat));
    let (s, line) = next_part(s, line, "/"@);
    let (s, line) = next_part(s, line, dec(p.dpi_entry_capacity as nat));
    let (s, line) = next_part(s, line, " (retained "@);
    let (s, line) = next_part(s, line, bytes_text(p.dpi_retained_bytes));
    let (s, line) = last_part(s, line, ")\nstream repair/inventory "@);
    let (s, line) = next_part(s, line, dec(p.stream_repairs as nat));
    let (s, line) = next_part(s, line, "/"@);
    let (s, line) = next_part(s, line, dec(p.stream_inventory as nat));
    let (s, line) = next_part(s, line, " · dataplane commands "@);
    let (s, line) = next_part(s, line, dec(p.dataplane_commands_queued as nat));
    let (s, line) = next_part(s, line, "/"@);
    let (s, line) = next_part(s, line, dec(p.dataplane_command_capacity as nat));
    let (s, line) = next_part(s, line, " · memory trim "@);
    let (s, line) = next_part(s, line, dec(p.memory_trim_count as nat));
    let (s, line) = last_part(s, line, "\n\n"@);
    lemma_shown(s);
}

/// Every figure of the local proxy stands behind its label.
pub proof fn law_proxy_figures_have_labels(p: RuntimeMemory)
    ensures
        contains_text(
            proxy_part(p),
            "[Local SOCKS / TPROXY]\n"@
                + (if p.local_proxy_active { "активен"@ } else { "не активен"@ })
                + " · TCP "@
                + dec(p.local_proxy_tcp_sessions as nat)
                + "/"@
                + dec(p.local_proxy_tcp_limit as nat)
                + " · UDP "@
                + dec(p.local_proxy_udp_flows as nat)
                + "/"@
                + dec(p.local_proxy_udp_limit as nat)
                + " · payload выделено "@
                + bytes_text(p.local_proxy_payload_allocated_bytes)
                + " · удерживается "@
                + bytes_text(p.local_proxy_payload_retained_bytes)
                + "\nopening buffers "@,
        ),
        contains_text(
            proxy_part(p),
            "\nopening buffers "@
                + bytes_text(p.local_proxy_opening_buffer_allocated_bytes)
                + " · payload upper bound на полном лимите "@
                + bytes_text(p.local_proxy_payload_upper_bound_at_limit_bytes)
                + " · kernel TCP/UDP buffers — cgroup sock выше\n\n"@,
        ),
{
    let (s, line) = first_part("[Local SOCKS / TPROXY]\n"@);
    let (s, line) = next_part(s, line, (if p.local_proxy_active { "активен"@ } else { "не активен"@ }));
    let (s, line) = next_part(s, line, " · TCP "@);
    let (s, line) = next_part(s, line, dec(p.local_proxy_tcp_sessions as nat));
    let (s, line) = next_part(s, line, "/"@);
    let (s, line) = next_part(s, line, dec(p.local_proxy_tcp_limit as nat));
    let (s, line) = next_part(s, line, " · UDP "@);
    let (s, line) = next_part(s, line, dec(p.local_proxy_udp_flows as nat));
    let (s, line) = next_part(s, line, "/"@);
    let (s, line) = next_part(s, line, dec(p.local_proxy_udp_limit as nat));
    let (s, line) = next_part(s, line, " · payload выделено "@);
    let (s, line) = next_part(s, line, bytes_text(p.local_proxy_payload_allocated_bytes));
    let (s, line) = next_part(s, line, " · удерживается "@);
    let (s, line) = next_part(s, line, bytes_text(p.local_proxy_payload_retained_bytes));
    let (s, line) = last_part(s, line, "\nopening buffers "@);
    let (s, line) = next_part(s, line, bytes_text(p.local_proxy_opening_buffer_allocated_bytes));
    let (s, line) = next_part(s, line, " · payload upper bound на полном лимите "@);
    let (s, line) = next_part(s, line, bytes_text(p.local_proxy_payload_upper_bound_at_limit_bytes));
    let (s, line) = last_part(s, line, " · kernel TCP/UDP buffers — cgroup sock выше\n\n"@);
    lemma_shown(s);
}

/// Every size on disk stands behind its label.
pub proof fn law_storage_figures_have_labels(p: StorageSizes)
    ensures
        contains_text(
            storage_part(p),
            "[Persistent storage — диск, не RSS]\nSQLite db "@
                + bytes_text(p.sqlite_db_bytes)
                + " · WAL "@
                + bytes_text(p.sqlite_wal_bytes)
                + " · SHM "@
                + bytes_text(p.sqlite_shm_bytes)
                + " · log "@
                + bytes_text(p.log_file_bytes)
                + "\n\nИнтерпретация: растут VmRSS/PSS/RssAnon — ищем удержание в процессе; RSS низкий, а cgroup sock/slab/file высокий — это ядро/cache/другие PID той же группы.\n"@,
        ),
{
    let (s, line) = first_part("[Persistent storage — диск, не RSS]\nSQLite db "@);
    let (s, line) = next_part(s, line, bytes_text(p.sqlite_db_bytes));
    let (s, line) = next_part(s, line, " · WAL "@);
    let (s, line) = next_part(s, line, bytes_text(p.sqlite_wal_bytes));
    let (s, line) = next_part(s, line, " · SHM "@);
    let (s, line) = next_part(s, line, bytes_text(p.sqlite_shm_bytes));
    let (s, line) = next_part(s, line, " · log "@);
    let (s, line) = next_part(s, line, bytes_text(p.log_file_bytes));
    let (s, line) = last_part(s, line, "\n\nИнтерпретация: растут VmRSS/PSS/RssAnon — ищем удержание в процессе; RSS низкий, а cgroup sock/slab/file высокий — это ядро/cache/другие PID той же группы.\n"@);
    lemma_shown(s);
}

/// The sections of the report follow each other: process, mapped memory, mappings, control
/// group, sockets, buffers, runtime, local proxy and disk.
pub proof fn law_report_sections_follow_each_other(frame: MetricFrame)
    ensures
        contains_text(
            metric_report(frame),
            metric_head(frame.pid)
                + process_part( frame.process, ),
        ),
        contains_text(
            metric_report(frame),
            process_part( frame.process, )
                + rollup_part( frame.smaps_rollup, ),
        ),
        contains_text(
            metric_report(frame),
            rollup_part( frame.smaps_rollup, )
                + mappings_part( frame.mappings, ),
        ),
        contains_text(
            metric_report(frame),
            mappings_part( frame.mappings, )
                + cgroup_part( frame.cgroup, ),
        ),
        contains_text(
            metric_report(frame),
            cgroup_part( frame.cgroup, )
                + sockets_part( frame.sockets, ),
        ),
        contains_text(
            metric_report(frame),
            sockets_part( frame.sockets, )
                + buffers_part( frame.fixed_buffers, ),
        ),
        contains_text(
            metric_report(frame),
            buffers_part( frame.fixed_buffers, )
                + runtime_part( frame.runtime, ),
        ),
        contains_text(
            metric_report(frame),
            runtime_part( frame.runtime, )
                + proxy_part( frame.runtime, ),
        ),
        contains_text(
            metric_report(frame),
            proxy_part( frame.runtime, )
                + storage_part( frame.storage, ),
        ),
{
    let (s, line) = first_part(metric_head(frame.pid));
    let (s, line) = last_part(s, line, process_part( frame.process, ));
    let (s, line) = last_part(s, line, rollup_part( frame.smaps_rollup, ));
    let (s, line) = last_part(s, line, mappings_part( frame.mappings, ));
    let (s, line) = last_part(s, line, cgroup_part( frame.cgroup, ));
    let (s, line) = last_part(s, line, sockets_part( frame.sockets, ));
    let (s, line) = last_part(s, line, buffers_part( frame.fixed_buffers, ));
    let (s, line) = last_part(s, line, runtime_part( frame.runtime, ));
    let (s, line) = last_part(s, line, proxy_part( frame.runtime, ));
    let (s, line) = last_part(s, line, storage_part( frame.storage, ));
    lemma_shown(s);
}

/// The first twelve mappings are shown, each with its own line, and no others.
pub proof fn law_first_mappings_are_shown(p: MappingMemory, i: int)
    requires
        p.available,
    ensures
        0 <= i < 12 && i < p.categories@.len() ==> contains_text(
            mappings_part(p),
            mapping_line(p.categories@[i]),
        ),
        shown(p.categories@.len(), 12) <= 12,
        p.categories@.len() <= 12 ==> shown(p.categories@.len(), 12) == p.categories@.len(),
        p.categories@.len() > 12 ==> shown(p.categories@.len(), 12) == 12,
        mappings_part(p) == "[Карта отображений smaps, top по RSS]\n"@ + mapping_lines(
            p.categories@,
            shown(p.categories@.len(), 12),
        ) + "\n"@,
{
    let n = shown(p.categories@.len(), 12);
    if 0 <= i < n {
        lemma_mapping_shown(p.categories@, n, i);
        let lines = mapping_lines(p.categories@, n);
        let title = "[Карта отображений smaps, top по RSS]\n"@;
        let at = choose|at: int| occurs_at(lines, mapping_line(p.categories@[i]), at);
        let line = mapping_line(p.categories@[i]);
        assert(mappings_part(p).subrange(title.len() + at, title.len() + at + line.len())
            =~= lines.subrange(at, at + line.len()));
        assert(occurs_at(mappings_part(p), line, title.len() + at));
    }
}

proof fn lemma_mapping_shown(categories: Seq<MappingCategory>, n: nat, i: int)
    requires
        0 <= i < n,
    ensures
        contains_text(mapping_lines(categories, n), mapping_line(categories[i])),
    decreases n,
{
    let before = mapping_lines(categories, (n - 1) as nat);
    let last = mapping_line(categories[n - 1]);
    let all = mapping_lines(categories, n);
    if i == n - 1 {
        assert(all.subrange(before.len() as int, before.len() as int + last.len()) =~= last);
        assert(occurs_at(all, last, before.len() as int));
    } else {
        lemma_mapping_shown(categories, (n - 1) as nat, i);
        let line = mapping_line(categories[i]);
        let at = choose|at: int| occurs_at(before, line, at);
        assert(all.subrange(at, at + line.len()) =~= before.subrange(at, at + line.len()));
        assert(occurs_at(all, line, at));
    }
}

/// The report begins with the number of the process.
pub proof fn law_report_names_its_process(pid: u32)
    ensures
        metric_head(pid).take(46) == "CSQTT METRIC ALL — снимок памяти сервера (PID "@,
        metric_head(pid).subrange(46, 46 + dec(pid as nat).len() as int) == dec(pid as nat),
        metric_head(pid)[46 + dec(pid as nat).len() as int] == ')',
{
    reveal_strlit("CSQTT METRIC ALL — снимок памяти сервера (PID ");
    reveal_strlit(")\nОбновление раз в 2 с. RSS/PSS, cgroup и kernel socket memory пересекаются — их нельзя складывать.\n\n");
    let t = metric_head(pid);
    assert(t.take(46) =~= "CSQTT METRIC ALL — снимок памяти сервера (PID "@);
    assert(t.subrange(46, 46 + dec(pid as nat).len() as int) =~= dec(pid as nat));
}

} // verus!
