//! Packet filter and routing rules that send client traffic to the local proxy.
use vstd::prelude::*;
use crate::server::cpu::{law_lines_are_read_back, lines_of, split_lines};
use crate::server::log_record::{law_prefix_is_the_longest, prefix_bytes, utf8_prefix};
use crate::server::model::LocalProxyProfile;
use crate::text::{
    char_is_space, chars_of, contains_text, copy_chars, dec, decimal, find_text, join, join_with,
    lemma_utf8_concat, occurs_at, push_chars, push_text, same_chars, same_text, split_words,
    starts_with, string_of, sub_chars, text_starts_with, texts, trim, trim_start, trimmed,
    trimmed_items, views, words,
};
use crate::text_map::TextMap;
use vstd::utf8::encode_utf8;
use vstd::string::StringExecFns;

verus! {

/// Attempts to start the proxy child on a free port.
pub const TPROXY_START_ATTEMPTS: u64 = 8;

/// Rounds of removing marked rules from a chain.
pub const CLEANUP_ROUNDS: usize = 8;

/// Most bytes of a child's error message.
pub const MAX_ERROR_BYTES: usize = 1536;

/// How a command counts.
#[derive(Clone, Copy, Debug, PartialEq, Eq, Structural)]
pub enum CommandMode {
    /// It must succeed.
    Required,
    /// Its failure does not matter.
    BestEffort,
    /// It is repeated until it fails.
    UntilFailure,
}

/// A command to run.
#[derive(Debug)]
pub struct PolicyCommand {
    pub program: String,
    pub args: Vec<String>,
    pub mode: CommandMode,
}

/// A command with its texts as sequences.
pub ghost struct CommandView {
    pub program: Seq<char>,
    pub args: Seq<Seq<char>>,
    pub mode: CommandMode,
}

/// The view of a command.
pub open spec fn command_view(c: PolicyCommand) -> CommandView {
    CommandView { program: c.program@, args: texts(c.args@), mode: c.mode }
}

/// The views of some commands.
pub open spec fn command_views(c: Seq<PolicyCommand>) -> Seq<CommandView> {
    Seq::new(c.len(), |i: int| command_view(c[i]))
}

/// The texts of some string slices.
pub open spec fn strs(v: Seq<&str>) -> Seq<Seq<char>> {
    Seq::new(v.len(), |i: int| v[i]@)
}

fn command(program: &str, args: Vec<&str>, mode: CommandMode) -> (r: PolicyCommand)
    ensures
        command_view(r) == (CommandView { program: program@, args: strs(args@), mode }),
{
    let mut owned: Vec<String> = Vec::new();
    let mut i: usize = 0;
    while i < args.len()
        invariant
            i <= args@.len(),
            owned@.len() == i,
            forall|k: int| 0 <= k < i ==> (#[trigger] owned@[k])@ == args@[k]@,
        decreases args@.len() - i,
    {
        owned.push(args[i].to_owned());
        i = i + 1;
    }
    proof {
        assert(texts(owned@) =~= strs(args@));
    }
    PolicyCommand { program: program.to_owned(), args: owned, mode }
}

// ---------------------------------------------------------------------------
// Rules
// ---------------------------------------------------------------------------

/// The comment by which rules for a port are recognised.
pub open spec fn comment_text(port: u16) -> Seq<char> {
    "CSQTT_TPROXY:"@ + dec(port as nat)
}

/// The comment by which rules for a port are recognised.
pub fn tproxy_comment(port: u16) -> (r: String)
    ensures
        r@ == comment_text(port),
{
    let mut out = chars_of("CSQTT_TPROXY:");
    let digits = decimal(port as u64);
    push_chars(&mut out, digits.as_slice());
    string_of(out.as_slice())
}

/// The rule that hands packets of a protocol to the listener.
pub open spec fn interception_args(
    insert: bool,
    protocol: Seq<char>,
    iface: Seq<char>,
    subnet: Seq<char>,
    port: u16,
) -> Seq<Seq<char>> {
    (if insert {
        seq!["-t"@, "mangle"@, "-I"@, "PREROUTING"@, "1"@]
    } else {
        seq!["-t"@, "mangle"@, "-C"@, "PREROUTING"@]
    }) + seq![
        "-i"@,
        iface,
        "-s"@,
        subnet,
        "-p"@,
        protocol,
        "-m"@,
        "comment"@,
        "--comment"@,
        comment_text(port),
        "-j"@,
        "TPROXY"@,
        "--tproxy-mark"@,
        "0x7531/0x7531"@,
        "--on-port"@,
        dec(port as nat),
    ]
}

/// The command that inserts, or looks for, the rule that hands packets of a protocol to
/// the listener.
pub fn interception_rule(
    insert: bool,
    protocol: &str,
    iface: &str,
    subnet: &str,
    port: u16,
) -> (r: PolicyCommand)
    ensures
        command_view(r) == (CommandView {
            program: "iptables"@,
            args: interception_args(insert, protocol@, iface@, subnet@, port),
            mode: CommandMode::Required,
        }),
{
    let comment = tproxy_comment(port);
    let digits = decimal(port as u64);
    let on_port = string_of(digits.as_slice());
    let mut args: Vec<&str> = if insert {
        vec!["-t", "mangle", "-I", "PREROUTING", "1"]
    } else {
        vec!["-t", "mangle", "-C", "PREROUTING"]
    };
    let ghost head = strs(args@);
    let mut rest: Vec<&str> = vec![
        "-i",
        iface,
        "-s",
        subnet,
        "-p",
        protocol,
        "-m",
        "comment",
        "--comment",
        comment.as_str(),
        "-j",
        "TPROXY",
        "--tproxy-mark",
        "0x7531/0x7531",
        "--on-port",
        on_port.as_str(),
    ];
    let ghost tail = strs(rest@);
    args.append(&mut rest);
    proof {
        assert(strs(args@) =~= head + tail);
        assert(strs(args@) =~= interception_args(insert, protocol@, iface@, subnet@, port));
    }
    command("iptables", args, CommandMode::Required)
}

/// The rule that takes client packets out of connection tracking, or accepts them.
pub open spec fn subnet_rule_args(
    table: Seq<char>,
    chain: Seq<char>,
    target: Seq<char>,
    iface: Seq<char>,
    subnet: Seq<char>,
    port: u16,
) -> Seq<Seq<char>> {
    seq![
        "-t"@,
        table,
        "-I"@,
        chain,
        "1"@,
        "-i"@,
        iface,
        "-s"@,
        subnet,
        "-m"@,
        "comment"@,
        "--comment"@,
        comment_text(port),
        "-j"@,
        target,
    ]
}

fn subnet_rule(table: &str, chain: &str, target: &str, iface: &str, subnet: &str, port: u16) -> (r:
    PolicyCommand)
    ensures
        command_view(r) == (CommandView {
            program: "iptables"@,
            args: subnet_rule_args(table@, chain@, target@, iface@, subnet@, port),
            mode: CommandMode::Required,
        }),
{
    let comment = tproxy_comment(port);
    let args: Vec<&str> = vec![
        "-t",
        table,
        "-I",
        chain,
        "1",
        "-i",
        iface,
        "-s",
        subnet,
        "-m",
        "comment",
        "--comment",
        comment.as_str(),
        "-j",
        target,
    ];
    proof {
        assert(strs(args@) =~= subnet_rule_args(table@, chain@, target@, iface@, subnet@, port));
    }
    command("iptables", args, CommandMode::Required)
}

/// The routing rule for marked packets.
pub open spec fn mark_rule_args(action: Seq<char>) -> Seq<Seq<char>> {
    seq![
        "rule"@,
        action,
        "fwmark"@,
        "0x7531/0x7531"@,
        "priority"@,
        "30001"@,
        "table"@,
        "30001"@,
    ]
}

fn mark_rule(action: &str, mode: CommandMode) -> (r: PolicyCommand)
    ensures
        command_view(r) == (CommandView { program: "ip"@, args: mark_rule_args(action@), mode }),
{
    let args: Vec<&str> = vec![
        "rule",
        action,
        "fwmark",
        "0x7531/0x7531",
        "priority",
        "30001",
        "table",
        "30001",
    ];
    proof {
        assert(strs(args@) =~= mark_rule_args(action@));
    }
    command("ip", args, mode)
}

/// The commands that set up routing for marked packets: old rules go first.
pub open spec fn shared_rules_plan() -> Seq<CommandView> {
    seq![
        CommandView {
            program: "ip"@,
            args: mark_rule_args("del"@),
            mode: CommandMode::UntilFailure,
        },
        CommandView {
            program: "ip"@,
            args: mark_rule_args("add"@),
            mode: CommandMode::Required,
        },
        CommandView {
            program: "ip"@,
            args: seq![
                "route"@,
                "replace"@,
                "local"@,
                "0.0.0.0/0"@,
                "dev"@,
                "lo"@,
                "table"@,
                "30001"@,
            ],
            mode: CommandMode::Required,
        },
    ]
}

/// The commands that set up routing for marked packets.
pub fn add_tproxy_shared_rules() -> (r: Vec<PolicyCommand>)
    ensures
        command_views(r@) == shared_rules_plan(),
{
    let mut r: Vec<PolicyCommand> = Vec::new();
    r.push(mark_rule("del", CommandMode::UntilFailure));
    r.push(mark_rule("add", CommandMode::Required));
    let args: Vec<&str> = vec![
        "route",
        "replace",
        "local",
        "0.0.0.0/0",
        "dev",
        "lo",
        "table",
        "30001",
    ];
    proof {
        assert(strs(args@) =~= shared_rules_plan()[2].args);
    }
    r.push(command("ip", args, CommandMode::Required));
    proof {
        assert(command_views(r@) =~= shared_rules_plan());
    }
    r
}

/// The rules for a port: both protocols are intercepted, client packets are not tracked,
/// and they are accepted.
pub open spec fn port_rules_plan(
    iface: Seq<char>,
    subnet: Seq<char>,
    port: u16,
) -> Seq<CommandView> {
    seq![
        CommandView {
            program: "iptables"@,
            args: interception_args(true, "tcp"@, iface, subnet, port),
            mode: CommandMode::Required,
        },
        CommandView {
            program: "iptables"@,
            args: interception_args(true, "udp"@, iface, subnet, port),
            mode: CommandMode::Required,
        },
        CommandView {
            program: "iptables"@,
            args: subnet_rule_args("raw"@, "PREROUTING"@, "NOTRACK"@, iface, subnet, port),
            mode: CommandMode::Required,
        },
        CommandView {
            program: "iptables"@,
            args: subnet_rule_args("filter"@, "INPUT"@, "ACCEPT"@, iface, subnet, port),
            mode: CommandMode::Required,
        },
    ]
}

/// The commands that set up the rules for a port.
pub fn add_tproxy_rules(iface: &str, subnet: &str, port: u16) -> (r: Vec<PolicyCommand>)
    ensures
        command_views(r@) == port_rules_plan(iface@, subnet@, port),
{
    let mut r: Vec<PolicyCommand> = Vec::new();
    r.push(interception_rule(true, "tcp", iface, subnet, port));
    r.push(interception_rule(true, "udp", iface, subnet, port));
    r.push(subnet_rule("raw", "PREROUTING", "NOTRACK", iface, subnet, port));
    r.push(subnet_rule("filter", "INPUT", "ACCEPT", iface, subnet, port));
    proof {
        assert(command_views(r@) =~= port_rules_plan(iface@, subnet@, port));
    }
    r
}

/// The rules that earlier versions left behind, as they are removed: rejection of QUIC,
/// marks of new flows, restored marks, and routing rules for the mark and the subnet.
pub open spec fn legacy_rules_plan(subnet: Seq<char>) -> Seq<CommandView> {
    let until = CommandMode::UntilFailure;
    seq![
        CommandView {
            program: "iptables"@,
            args: seq![
                "-D"@,
                "FORWARD"@,
                "-s"@,
                subnet,
                "-p"@,
                "udp"@,
                "--dport"@,
                "443"@,
                "-m"@,
                "comment"@,
                "--comment"@,
                "CSQTT_CASCADE_NO_QUIC"@,
                "-j"@,
                "REJECT"@,
                "--reject-with"@,
                "icmp-port-unreachable"@,
            ],
            mode: until,
        },
        CommandView {
            program: "iptables"@,
            args: seq![
                "-t"@,
                "mangle"@,
                "-D"@,
                "PREROUTING"@,
                "-s"@,
                subnet,
                "-m"@,
                "conntrack"@,
                "--ctstate"@,
                "NEW"@,
                "-m"@,
                "comment"@,
                "--comment"@,
                "CSQTT_LOCAL_SOCKS_MARK"@,
                "-j"@,
                "CONNMARK"@,
                "--set-xmark"@,
                "0x422"@,
            ],
            mode: until,
        },
        CommandView {
            program: "iptables"@,
            args: seq![
                "-t"@,
                "mangle"@,
                "-D"@,
                "PREROUTING"@,
                "-s"@,
                subnet,
                "-m"@,
                "comment"@,
                "--comment"@,
                "CSQTT_LOCAL_SOCKS_MARK"@,
                "-j"@,
                "CONNMARK"@,
                "--restore-mark"@,
            ],
            mode: until,
        },
        CommandView {
            program: "ip"@,
            args: seq![
                "rule"@,
                "del"@,
                "fwmark"@,
                "0x422"@,
                "priority"@,
                "1066"@,
                "table"@,
                "1066"@,
            ],
            mode: until,
        },
        CommandView {
            program: "ip"@,
            args: seq![
                "rule"@,
                "del"@,
                "from"@,
                subnet,
                "priority"@,
                "1066"@,
                "table"@,
                "1066"@,
            ],
            mode: until,
        },
        CommandView {
            program: "ip"@,
            args: seq!["route"@, "flush"@, "table"@, "1066"@],
            mode: CommandMode::BestEffort,
        },
    ]
}

/// The commands that remove the rules that earlier versions left behind.
pub fn cleanup_legacy_rules(subnet: &str) -> (r: Vec<PolicyCommand>)
    ensures
        command_views(r@) == legacy_rules_plan(subnet@),
{
    let until = CommandMode::UntilFailure;
    let quic: Vec<&str> = vec![
        "-D",
        "FORWARD",
        "-s",
        subnet,
        "-p",
        "udp",
        "--dport",
        "443",
        "-m",
        "comment",
        "--comment",
        "CSQTT_CASCADE_NO_QUIC",
        "-j",
        "REJECT",
        "--reject-with",
        "icmp-port-unreachable",
    ];
    let new_flow: Vec<&str> = vec![
        "-t",
        "mangle",
        "-D",
        "PREROUTING",
        "-s",
        subnet,
        "-m",
        "conntrack",
        "--ctstate",
        "NEW",
        "-m",
        "comment",
        "--comment",
        "CSQTT_LOCAL_SOCKS_MARK",
        "-j",
        "CONNMARK",
        "--set-xmark",
        "0x422",
    ];
    let restore: Vec<&str> = vec![
        "-t",
        "mangle",
        "-D",
        "PREROUTING",
        "-s",
        subnet,
        "-m",
        "comment",
        "--comment",
        "CSQTT_LOCAL_SOCKS_MARK",
        "-j",
        "CONNMARK",
        "--restore-mark",
    ];
    let mark: Vec<&str> = vec![
        "rule",
        "del",
        "fwmark",
        "0x422",
        "priority",
        "1066",
        "table",
        "1066",
    ];
    let from: Vec<&str> = vec!["rule", "del", "from", subnet, "priority", "1066", "table", "1066"];
    let flush: Vec<&str> = vec!["route", "flush", "table", "1066"];
    let ghost plan = legacy_rules_plan(subnet@);
    proof {
        assert(strs(quic@) =~= plan[0].args);
        assert(strs(new_flow@) =~= plan[1].args);
        assert(strs(restore@) =~= plan[2].args);
        assert(strs(mark@) =~= plan[3].args);
        assert(strs(from@) =~= plan[4].args);
        assert(strs(flush@) =~= plan[5].args);
    }
    let mut r: Vec<PolicyCommand> = Vec::new();
    r.push(command("iptables", quic, until));
    r.push(command("iptables", new_flow, until));
    r.push(command("iptables", restore, until));
    r.push(command("ip", mark, until));
    r.push(command("ip", from, until));
    r.push(command("ip", flush, CommandMode::BestEffort));
    proof {
        assert(command_views(r@) =~= plan);
    }
    r
}

/// The commands that take back routing for marked packets.
pub open spec fn shared_cleanup_plan() -> Seq<CommandView> {
    seq![
        CommandView {
            program: "ip"@,
            args: mark_rule_args("del"@),
            mode: CommandMode::UntilFailure,
        },
        CommandView {
            program: "ip"@,
            args: seq!["route"@, "flush"@, "table"@, "30001"@],
            mode: CommandMode::BestEffort,
        },
        CommandView {
            program: "ip"@,
            args: seq!["route"@, "flush"@, "cache"@],
            mode: CommandMode::BestEffort,
        },
    ]
}

/// The command that has the kernel look its routes up anew.
pub fn flush_route_cache() -> (r: PolicyCommand)
    ensures
        command_view(r) == shared_cleanup_plan()[2],
{
    let args: Vec<&str> = vec!["route", "flush", "cache"];
    proof {
        assert(strs(args@) =~= shared_cleanup_plan()[2].args);
    }
    command("ip", args, CommandMode::BestEffort)
}

/// The commands that take back routing for marked packets.
pub fn cleanup_shared_rules() -> (r: Vec<PolicyCommand>)
    ensures
        command_views(r@) == shared_cleanup_plan(),
{
    let args: Vec<&str> = vec!["route", "flush", "table", "30001"];
    proof {
        assert(strs(args@) =~= shared_cleanup_plan()[1].args);
    }
    let mut r: Vec<PolicyCommand> = Vec::new();
    r.push(mark_rule("del", CommandMode::UntilFailure));
    r.push(command("ip", args, CommandMode::BestEffort));
    r.push(flush_route_cache());
    proof {
        assert(command_views(r@) =~= shared_cleanup_plan());
    }
    r
}

/// The command that loosens reverse path filtering on the tunnel interface.
pub fn loosen_path_filter() -> (r: PolicyCommand)
    ensures
        command_view(r) == path_filter_plan(),
{
    let args: Vec<&str> = vec!["-w", "net.ipv4.conf.csqtt1.rp_filter=2"];
    proof {
        assert(strs(args@) =~= seq!["-w"@, "net.ipv4.conf.csqtt1.rp_filter=2"@]);
    }
    command("sysctl", args, CommandMode::BestEffort)
}

/// What a program is started with: the packet filter tool waits for its lock first.
pub open spec fn started_with(program: Seq<char>, args: Seq<Seq<char>>) -> Seq<Seq<char>> {
    if program == "iptables"@ {
        seq!["-w"@, "2"@] + args
    } else {
        args
    }
}

/// What a program is started with.
pub fn start_arguments(program: &str, args: &Vec<String>) -> (r: Vec<String>)
    ensures
        texts(r@) == started_with(program@, texts(args@)),
{
    let mut r: Vec<String> = Vec::new();
    if same_text(program, "iptables") {
        r.push("-w".to_owned());
        r.push("2".to_owned());
    }
    let ghost head = r@;
    let mut i: usize = 0;
    while i < args.len()
        invariant
            i <= args@.len(),
            r@.len() == head.len() + i,
            forall|k: int| 0 <= k < head.len() ==> r@[k] == head[k],
            forall|k: int| 0 <= k < i ==> (#[trigger] r@[head.len() + k])@ == args@[k]@,
        decreases args@.len() - i,
    {
        r.push(args[i].clone());
        i = i + 1;
    }
    proof {
        assert(texts(r@) =~= texts(head) + texts(args@)) by {
            assert forall|k: int| 0 <= k < r@.len() implies texts(r@)[k] == (texts(head) + texts(
                args@,
            ))[k] by {
                if k >= head.len() {
                    assert(r@[head.len() + (k - head.len())]@ == args@[k - head.len()]@);
                }
            }
        }
        if program@ == "iptables"@ {
            assert(texts(head) =~= seq!["-w"@, "2"@]);
        } else {
            assert(texts(head) + texts(args@) =~= texts(args@));
        }
    }
    r
}

/// The exemption from address translation on an interface, as it is removed.
pub open spec fn nat_exemption_args(
    subnet: Seq<char>,
    interface: Seq<char>,
    comment: Seq<char>,
) -> Seq<Seq<char>> {
    seq![
        "-t"@,
        "nat"@,
        "-D"@,
        "POSTROUTING"@,
        "-s"@,
        subnet,
        "-o"@,
        interface,
        "-m"@,
        "comment"@,
        "--comment"@,
        comment,
        "-j"@,
        "ACCEPT"@,
    ]
}

fn nat_exemption(subnet: &str, interface: &str, comment: &str) -> (r: PolicyCommand)
    ensures
        command_view(r) == (CommandView {
            program: "iptables"@,
            args: nat_exemption_args(subnet@, interface@, comment@),
            mode: CommandMode::UntilFailure,
        }),
{
    let args: Vec<&str> = vec![
        "-t",
        "nat",
        "-D",
        "POSTROUTING",
        "-s",
        subnet,
        "-o",
        interface,
        "-m",
        "comment",
        "--comment",
        comment,
        "-j",
        "ACCEPT",
    ];
    proof {
        assert(strs(args@) =~= nat_exemption_args(subnet@, interface@, comment@));
    }
    command("iptables", args, CommandMode::UntilFailure)
}

/// The commands that remove the exemptions from address translation on an interface.
pub fn cleanup_nat_exemption(subnet: &str, interface: &str) -> (r: Vec<PolicyCommand>)
    ensures
        command_views(r@) == seq![
            CommandView {
                program: "iptables"@,
                args: nat_exemption_args(subnet@, interface@, "CSQTT_LOCAL_SOCKS"@),
                mode: CommandMode::UntilFailure,
            },
            CommandView {
                program: "iptables"@,
                args: nat_exemption_args(subnet@, interface@, "CSQTT_SOCKS"@),
                mode: CommandMode::UntilFailure,
            },
        ],
{
    let mut r: Vec<PolicyCommand> = Vec::new();
    r.push(nat_exemption(subnet, interface, "CSQTT_LOCAL_SOCKS"));
    r.push(nat_exemption(subnet, interface, "CSQTT_SOCKS"));
    proof {
        assert(command_views(r@) =~= seq![
            CommandView {
                program: "iptables"@,
                args: nat_exemption_args(subnet@, interface@, "CSQTT_LOCAL_SOCKS"@),
                mode: CommandMode::UntilFailure,
            },
            CommandView {
                program: "iptables"@,
                args: nat_exemption_args(subnet@, interface@, "CSQTT_SOCKS"@),
                mode: CommandMode::UntilFailure,
            },
        ]);
    }
    r
}

// ---------------------------------------------------------------------------
// Finding rules in listings
// ---------------------------------------------------------------------------

/// Whether a line of a listing is a rule of a chain.
pub open spec fn is_chain_rule(line: Seq<char>, chain: Seq<char>) -> bool {
    let prefix = "-A "@ + chain;
    line == prefix || starts_with(line, prefix.push(' '))
}

/// Whether a line holds one of some markers.
pub open spec fn has_marker(line: Seq<char>, markers: Seq<&str>) -> bool {
    exists|i: int| 0 <= i < markers.len() && contains_text(line, (#[trigger] markers[i])@)
}

/// Number of rules of a chain in a listing.
pub open spec fn chain_length(lines: Seq<Seq<char>>, chain: Seq<char>) -> nat
    decreases lines.len(),
{
    if lines.len() == 0 {
        0
    } else {
        chain_length(lines.drop_last(), chain) + (if is_chain_rule(lines.last(), chain) {
            1nat
        } else {
            0nat
        })
    }
}

/// The positions of the marked rules within their chain, counted from one.
pub open spec fn marked_positions(
    lines: Seq<Seq<char>>,
    chain: Seq<char>,
    markers: Seq<&str>,
) -> Seq<nat>
    decreases lines.len(),
{
    if lines.len() == 0 {
        Seq::empty()
    } else {
        let before = marked_positions(lines.drop_last(), chain, markers);
        if is_chain_rule(lines.last(), chain) && has_marker(lines.last(), markers) {
            before.push(chain_length(lines, chain))
        } else {
            before
        }
    }
}

fn line_has_marker(line: &[char], markers: &[&str]) -> (r: bool)
    ensures
        r == has_marker(line@, markers@),
{
    let mut i: usize = 0;
    while i < markers.len()
        invariant
            i <= markers@.len(),
            forall|k: int| 0 <= k < i ==> !contains_text(line@, (#[trigger] markers@[k])@),
        decreases markers@.len() - i,
    {
        let m = chars_of(markers[i]);
        if find_text(line, m.as_slice()).is_some() {
            proof {
                assert(contains_text(line@, markers@[i as int]@));
            }
            return true;
        }
        i = i + 1;
    }
    false
}

/// Finds the positions of the marked rules within their chain.
pub fn marked_rule_numbers(rules: &str, chain: &str, markers: &[&str]) -> (r: Vec<usize>)
    ensures
        r@.len() == marked_positions(lines_of(rules@), chain@, markers@).len(),
        forall|i: int|
            0 <= i < r@.len() ==> #[trigger] r@[i] == marked_positions(
                lines_of(rules@),
                chain@,
                markers@,
            )[i],
{
    let chars = chars_of(rules);
    let lines = split_lines(chars.as_slice());
    let ghost l = views(lines@);
    let mut prefix = chars_of("-A ");
    push_text(&mut prefix, chain);
    let mut spaced = copy_chars(prefix.as_slice());
    spaced.push(' ');
    let mut number: usize = 0;
    let mut r: Vec<usize> = Vec::new();
    let mut i: usize = 0;
    proof {
        assert(l.take(0) =~= Seq::<Seq<char>>::empty());
    }
    while i < lines.len()
        invariant
            i <= lines@.len(),
            l == views(lines@),
            prefix@ == "-A "@ + chain@,
            spaced@ == prefix@.push(' '),
            number <= i,
            number == chain_length(l.take(i as int), chain@),
            r@.len() == marked_positions(l.take(i as int), chain@, markers@).len(),
            forall|k: int|
                0 <= k < r@.len() ==> #[trigger] r@[k] == marked_positions(
                    l.take(i as int),
                    chain@,
                    markers@,
                )[k],
        decreases lines@.len() - i,
    {
        let line = lines[i].as_slice();
        proof {
            assert(l.take(i as int + 1).drop_last() =~= l.take(i as int));
            assert(l.take(i as int + 1).last() == lines@[i as int]@);
        }
        if same_chars(line, prefix.as_slice()) || text_starts_with(line, spaced.as_slice()) {
            number = number + 1;
            if line_has_marker(line, markers) {
                r.push(number);
            }
        }
        i = i + 1;
    }
    proof {
        assert(l.take(i as int) =~= l);
    }
    r
}

/// The rules of a chain in a listing.
pub open spec fn chain_rules(lines: Seq<Seq<char>>, chain: Seq<char>) -> Seq<Seq<char>> {
    lines.filter(|line: Seq<char>| is_chain_rule(line, chain))
}

/// Removes rules by position, the last one first, so that the positions of the others
/// stay valid.
pub open spec fn removed(rules: Seq<Seq<char>>, positions: Seq<nat>) -> Seq<Seq<char>>
    decreases positions.len(),
{
    if positions.len() == 0 {
        rules
    } else {
        removed(rules.remove(positions.last() - 1), positions.drop_last())
    }
}

/// Removing the marked positions, the last one first, leaves exactly the rules of the
/// chain that are not marked.
pub proof fn law_cleanup_removes_marked_rules(
    lines: Seq<Seq<char>>,
    chain: Seq<char>,
    markers: Seq<&str>,
)
    ensures
        removed(chain_rules(lines, chain), marked_positions(lines, chain, markers)) == chain_rules(
            lines,
            chain,
        ).filter(|line: Seq<char>| !has_marker(line, markers)),
    decreases lines.len(),
{
    lemma_removed(lines, chain, markers, Seq::empty());
    let rules = chain_rules(lines, chain);
    let keep = |line: Seq<char>| !has_marker(line, markers);
    assert(rules + Seq::<Seq<char>>::empty() =~= rules);
    assert(rules.filter(keep) + Seq::<Seq<char>>::empty() =~= rules.filter(keep));
}

proof fn lemma_removed(
    lines: Seq<Seq<char>>,
    chain: Seq<char>,
    markers: Seq<&str>,
    tail: Seq<Seq<char>>,
)
    ensures
        removed(chain_rules(lines, chain) + tail, marked_positions(lines, chain, markers))
            == chain_rules(lines, chain).filter(|line: Seq<char>| !has_marker(line, markers))
            + tail,
        chain_length(lines, chain) == chain_rules(lines, chain).len(),
    decreases lines.len(),
{
    reveal(Seq::filter);
    let is_rule = |line: Seq<char>| is_chain_rule(line, chain);
    let keep = |line: Seq<char>| !has_marker(line, markers);
    let rules = chain_rules(lines, chain);
    let positions = marked_positions(lines, chain, markers);
    if lines.len() == 0 {
        assert(rules =~= Seq::<Seq<char>>::empty());
        assert(rules.filter(keep) =~= Seq::<Seq<char>>::empty());
        assert(rules + tail =~= tail);
    } else {
        let d = lines.drop_last();
        let last = lines.last();
        let before = chain_rules(d, chain);
        if !is_rule(last) {
            lemma_removed(d, chain, markers, tail);
            assert(rules == before);
        } else if has_marker(last, markers) {
            lemma_removed(d, chain, markers, tail);
            assert(rules == before.push(last));
            assert(rules.drop_last() =~= before);
            let n = positions.last();
            assert(n == before.len() + 1);
            assert((rules + tail).remove(n - 1) =~= before + tail);
            assert(positions.drop_last() =~= marked_positions(d, chain, markers));
            assert(rules.filter(keep) == before.filter(keep));
        } else {
            let longer = seq![last] + tail;
            lemma_removed(d, chain, markers, longer);
            assert(rules == before.push(last));
            assert(rules.drop_last() =~= before);
            assert(rules + tail =~= before + longer);
            assert(rules.filter(keep) == before.filter(keep).push(last));
            assert(before.filter(keep).push(last) + tail =~= before.filter(keep) + longer);
        }
    }
}

/// The commands that remove the rules at some positions, the last one first.
pub fn deletion_commands(table: &str, chain: &str, numbers: &Vec<usize>) -> (r: Vec<PolicyCommand>)
    ensures
        r@.len() == numbers@.len(),
        forall|i: int|
            0 <= i < r@.len() ==> command_view(#[trigger] r@[i]) == (CommandView {
                program: "iptables"@,
                args: seq![
                    "-t"@,
                    table@,
                    "-D"@,
                    chain@,
                    dec(numbers@[numbers@.len() - 1 - i] as nat),
                ],
                mode: CommandMode::BestEffort,
            }),
{
    let mut r: Vec<PolicyCommand> = Vec::new();
    let mut n: usize = numbers.len();
    while n > 0
        invariant
            n <= numbers@.len(),
            r@.len() == numbers@.len() - n,
            forall|i: int|
                0 <= i < r@.len() ==> command_view(#[trigger] r@[i]) == (CommandView {
                    program: "iptables"@,
                    args: seq![
                        "-t"@,
                        table@,
                        "-D"@,
                        chain@,
                        dec(numbers@[numbers@.len() - 1 - i] as nat),
                    ],
                    mode: CommandMode::BestEffort,
                }),
        decreases n,
    {
        n = n - 1;
        let digits = decimal(numbers[n] as u64);
        let number = string_of(digits.as_slice());
        let args: Vec<&str> = vec!["-t", table, "-D", chain, number.as_str()];
        proof {
            assert(strs(args@) =~= seq!["-t"@, table@, "-D"@, chain@, dec(numbers@[n as int] as nat)]);
        }
        r.push(command("iptables", args, CommandMode::BestEffort));
    }
    r
}

/// The interface that an exemption from address translation names.
pub open spec fn exempt_interface(line: Seq<char>) -> Option<Seq<char>> {
    if (contains_text(line, "CSQTT_LOCAL_SOCKS"@) || contains_text(line, "CSQTT_SOCKS"@))
        && contains_text(line, " -o "@) {
        let at = first_at(line, " -o "@);
        let w = words(line.skip(at + 4));
        if w.len() > 0 {
            Some(w[0])
        } else {
            None
        }
    } else {
        None
    }
}

/// The first position at which a text stands in a line that holds it.
pub open spec fn first_at(s: Seq<char>, p: Seq<char>) -> int {
    choose|at: int|
        #[trigger] occurs_at(s, p, at) && forall|j: int| 0 <= j < at ==> !occurs_at(s, p, j)
}

fn line_interface(line: &[char]) -> (r: Option<Vec<char>>)
    ensures
        (match r {
            Some(name) => Some(name@),
            None => None,
        }) == exempt_interface(line@),
{
    let current = chars_of("CSQTT_LOCAL_SOCKS");
    let legacy = chars_of("CSQTT_SOCKS");
    let out = chars_of(" -o ");
    if find_text(line, current.as_slice()).is_none() && find_text(line, legacy.as_slice()).is_none() {
        return None;
    }
    let len: usize = line.len();
    match find_text(line, out.as_slice()) {
        None => None,
        Some(at) => {
            proof {
                assert(len == line@.len());
                reveal_strlit(" -o ");
                assert(" -o "@.len() == 4);
                let c = first_at(line@, " -o "@);
                assert(occurs_at(line@, " -o "@, at as int));
                assert(c == at) by {
                    if c < at {
                        assert(!occurs_at(line@, " -o "@, c));
                    }
                }
            }
            let rest = sub_chars(line, at + 4, len);
            proof {
                assert(rest@ =~= line@.skip(at + 4));
            }
            let mut w = split_words(rest.as_slice());
            proof {
                assert(views(w@).len() == w@.len());
            }
            if w.len() == 0 {
                return None;
            }
            proof {
                assert(views(w@)[0] == w@[0]@);
            }
            Some(w.remove(0))
        },
    }
}

/// The interfaces that the exemptions among some lines name.
pub open spec fn interfaces_of(lines: Seq<Seq<char>>) -> Set<Seq<char>>
    decreases lines.len(),
{
    if lines.len() == 0 {
        Set::empty()
    } else {
        match exempt_interface(lines.last()) {
            Some(name) => interfaces_of(lines.drop_last()).insert(name),
            None => interfaces_of(lines.drop_last()),
        }
    }
}

/// A set of interfaces with the one that a line may name.
pub open spec fn with_interface(
    interfaces: Set<Seq<char>>,
    name: Option<Seq<char>>,
) -> Set<Seq<char>> {
    match name {
        Some(n) => interfaces.insert(n),
        None => interfaces,
    }
}

proof fn lemma_interfaces_step(l: Seq<Seq<char>>, i: int)
    requires
        0 <= i < l.len(),
    ensures
        interfaces_of(l.take(i + 1)) == with_interface(
            interfaces_of(l.take(i)),
            exempt_interface(l[i]),
        ),
{
    assert(l.take(i + 1).drop_last() =~= l.take(i));
    assert(l.take(i + 1).last() == l[i]);
}

fn add_interface(interfaces: &mut TextMap<bool>, line: &[char])
    requires
        old(interfaces).wf(),
    ensures
        final(interfaces).wf(),
        final(interfaces)@.dom() == with_interface(
            old(interfaces)@.dom(),
            exempt_interface(line@),
        ),
{
    let ghost before = interfaces@;
    let ghost named = exempt_interface(line@);
    if let Some(name) = line_interface(line) {
        let key = string_of(name.as_slice());
        let ghost text = name@;
        interfaces.insert(key, true);
        assert(named == Some(text));
        assert(interfaces@.dom() =~= before.dom().insert(text));
    }
}

/// The interfaces that exemptions from address translation name, each once, in order.
pub fn exempt_interfaces(rules: &str) -> (r: TextMap<bool>)
    ensures
        r.wf(),
        r@.dom() == interfaces_of(lines_of(rules@)),
{
    let chars = chars_of(rules);
    let lines = split_lines(chars.as_slice());
    let ghost l = views(lines@);
    let mut r: TextMap<bool> = TextMap::new();
    let mut i: usize = 0;
    proof {
        assert(l.take(0) =~= Seq::<Seq<char>>::empty());
        assert(r@.dom() =~= Set::<Seq<char>>::empty());
    }
    while i < lines.len()
        invariant
            i <= lines@.len(),
            l == views(lines@),
            r.wf(),
            r@.dom() == interfaces_of(l.take(i as int)),
        decreases lines@.len() - i,
    {
        proof {
            lemma_interfaces_step(l, i as int);
            assert(l[i as int] == lines@[i as int]@);
        }
        add_interface(&mut r, lines[i].as_slice());
        i = i + 1;
    }
    proof {
        assert(l.take(i as int) =~= l);
    }
    r
}

/// Whether a routing rule sends marked packets to the proxy's table.
pub open spec fn is_interception_rule(line: Seq<char>) -> bool {
    contains_text(line, "fwmark 0x7531"@) && contains_text(line, "30001"@)
}

fn holds(line: &[char], text: &str) -> (r: bool)
    ensures
        r == contains_text(line@, text@),
{
    let p = chars_of(text);
    find_text(line, p.as_slice()).is_some()
}

/// Whether a listing of routing rules holds the one for marked packets.
pub fn interception_rule_present(rules: &str) -> (r: bool)
    ensures
        r == exists|i: int|
            0 <= i < lines_of(rules@).len() && is_interception_rule(#[trigger] lines_of(rules@)[i]),
{
    let chars = chars_of(rules);
    let lines = split_lines(chars.as_slice());
    let ghost l = views(lines@);
    let mut i: usize = 0;
    while i < lines.len()
        invariant
            i <= lines@.len(),
            l == views(lines@),
            l == lines_of(rules@),
            forall|k: int| 0 <= k < i ==> !is_interception_rule(#[trigger] l[k]),
        decreases lines@.len() - i,
    {
        proof {
            assert(l[i as int] == lines@[i as int]@);
        }
        let line = lines[i].as_slice();
        if holds(line, "fwmark 0x7531") && holds(line, "30001") {
            proof {
                assert(is_interception_rule(l[i as int]));
            }
            return true;
        }
        i = i + 1;
    }
    false
}

/// A routing rule that this program or an earlier version of it set up.
pub open spec fn is_owned_rule(line: Seq<char>) -> bool {
    let start = trim_start(line);
    (starts_with(start, "30001:"@) && contains_text(line, "fwmark 0x7531"@) && contains_text(
        line,
        "lookup 30001"@,
    )) || (starts_with(start, "1066:"@) && (contains_text(line, "lookup 1066"@) || contains_text(
        line,
        "fwmark 0x422"@,
    )))
}

fn owned_rule(line: &[char]) -> (r: bool)
    ensures
        r == is_owned_rule(line@),
{
    let mut a: usize = 0;
    proof {
        assert(line@.skip(0) =~= line@);
    }
    while a < line.len() && char_is_space(line[a])
        invariant
            a <= line@.len(),
            trim_start(line@) == trim_start(line@.skip(a as int)),
        decreases line@.len() - a,
    {
        proof {
            assert(line@.skip(a as int)[0] == line@[a as int]);
            assert(line@.skip(a as int).skip(1) =~= line@.skip(a as int + 1));
        }
        a = a + 1;
    }
    proof {
        if a < line@.len() {
            assert(line@.skip(a as int)[0] == line@[a as int]);
        }
        assert(trim_start(line@) == line@.skip(a as int));
        assert(line@.subrange(a as int, line@.len() as int) =~= line@.skip(a as int));
    }
    let start = sub_chars(line, a, line.len());
    let tproxy = chars_of("30001:");
    let legacy = chars_of("1066:");
    (text_starts_with(start.as_slice(), tproxy.as_slice()) && holds(line, "fwmark 0x7531") && holds(
        line,
        "lookup 30001",
    )) || (text_starts_with(start.as_slice(), legacy.as_slice()) && (holds(line, "lookup 1066")
        || holds(line, "fwmark 0x422")))
}

/// The first routing rule of a listing that should be gone, trimmed.
pub fn stale_policy_rule(rules: &str) -> (r: Option<String>)
    ensures
        match r {
            Some(line) => exists|i: int|
                {
                    &&& 0 <= i < lines_of(rules@).len()
                    &&& is_owned_rule(#[trigger] lines_of(rules@)[i])
                    &&& line@ == trim(lines_of(rules@)[i])
                    &&& forall|j: int|
                        0 <= j < i ==> !is_owned_rule(#[trigger] lines_of(rules@)[j])
                },
            None => forall|i: int|
                0 <= i < lines_of(rules@).len() ==> !is_owned_rule(#[trigger] lines_of(rules@)[i]),
        },
{
    let chars = chars_of(rules);
    let lines = split_lines(chars.as_slice());
    let ghost l = views(lines@);
    let mut i: usize = 0;
    while i < lines.len()
        invariant
            i <= lines@.len(),
            l == views(lines@),
            l == lines_of(rules@),
            forall|k: int| 0 <= k < i ==> !is_owned_rule(#[trigger] l[k]),
        decreases lines@.len() - i,
    {
        proof {
            assert(l[i as int] == lines@[i as int]@);
        }
        if owned_rule(lines[i].as_slice()) {
            proof {
                assert(is_owned_rule(l[i as int]));
            }
            let t = trimmed(lines[i].as_slice());
            return Some(string_of(t.as_slice()));
        }
        i = i + 1;
    }
    None
}

/// The markers of all rules that this program or earlier versions of it set up.
pub open spec fn all_markers() -> Seq<Seq<char>> {
    seq![
        "CSQTT_TPROXY"@,
        "CSQTT_LOCAL_SOCKS"@,
        "CSQTT_LOCAL_SOCKS_MARK"@,
        "CSQTT_SOCKS"@,
        "CSQTT_CASCADE_NO_QUIC"@,
    ]
}

/// The first marker that a listing still holds.
pub fn stale_marker(rules: &str) -> (r: Option<&'static str>)
    ensures
        match r {
            Some(marker) => exists|i: int|
                {
                    &&& 0 <= i < all_markers().len()
                    &&& marker@ == #[trigger] all_markers()[i]
                    &&& contains_text(rules@, marker@)
                    &&& forall|j: int|
                        0 <= j < i ==> !contains_text(rules@, #[trigger] all_markers()[j])
                },
            None => forall|i: int|
                0 <= i < all_markers().len() ==> !contains_text(
                    rules@,
                    #[trigger] all_markers()[i],
                ),
        },
{
    let chars = chars_of(rules);
    let markers: Vec<&'static str> = vec![
        "CSQTT_TPROXY",
        "CSQTT_LOCAL_SOCKS",
        "CSQTT_LOCAL_SOCKS_MARK",
        "CSQTT_SOCKS",
        "CSQTT_CASCADE_NO_QUIC",
    ];
    let mut i: usize = 0;
    while i < markers.len()
        invariant
            i <= markers@.len(),
            chars@ == rules@,
            markers@.len() == all_markers().len(),
            forall|k: int| 0 <= k < markers@.len() ==> (#[trigger] markers@[k])@ == all_markers()[k],
            forall|k: int| 0 <= k < i ==> !contains_text(rules@, #[trigger] all_markers()[k]),
        decreases markers@.len() - i,
    {
        if holds(chars.as_slice(), markers[i]) {
            proof {
                assert(all_markers()[i as int] == markers@[i as int]@);
            }
            return Some(markers[i]);
        }
        i = i + 1;
    }
    None
}

// ---------------------------------------------------------------------------
// The child process
// ---------------------------------------------------------------------------

/// The pieces of an error message: its lines, trimmed, without empty ones.
pub open spec fn compact_error(error: Seq<char>) -> Seq<char> {
    join(trimmed_items(lines_of(error)), "; "@)
}

/// Makes one line of a bounded length out of an error message; one that was cut short
/// ends in three dots.
pub fn trim_tproxy_child_error(error: &str) -> (r: String)
    ensures
        error_trimmed(error@, r@),
{
    let chars = chars_of(error);
    let lines = split_lines(chars.as_slice());
    let ghost l = views(lines@);
    let mut items: Vec<Vec<char>> = Vec::new();
    let mut i: usize = 0;
    proof {
        assert(l.take(0) =~= Seq::<Seq<char>>::empty());
        assert(views(items@) =~= Seq::<Seq<char>>::empty());
    }
    while i < lines.len()
        invariant
            i <= lines@.len(),
            l == views(lines@),
            views(items@) == trimmed_items(l.take(i as int)),
        decreases lines@.len() - i,
    {
        let item = trimmed(lines[i].as_slice());
        let ghost before = items@;
        proof {
            assert(l.take(i as int + 1).drop_last() =~= l.take(i as int));
            assert(l.take(i as int + 1).last() == lines@[i as int]@);
        }
        if item.len() > 0 {
            let ghost t = item@;
            items.push(item);
            proof {
                assert(views(items@) =~= views(before).push(t));
            }
        }
        i = i + 1;
    }
    proof {
        assert(l.take(i as int) =~= l);
    }
    let sep = chars_of("; ");
    let whole = join_with(&items, sep.as_slice());
    let compact = string_of(whole.as_slice());
    if compact.as_str().as_bytes().len() <= MAX_ERROR_BYTES {
        return compact;
    }
    let part = utf8_prefix(compact.as_str(), MAX_ERROR_BYTES);
    let mut out = part.to_owned();
    out.append("...");
    proof {
        lemma_utf8_concat(part@, "..."@);
    }
    out
}

/// Whether a failed start is worth another port: the one that was tried is taken.
pub fn tproxy_start_error_is_retryable(error: &str) -> (r: bool)
    ensures
        r == (contains_text(error@, "Address already in use"@) || contains_text(
            error@,
            "os error 98"@,
        )),
{
    let chars = chars_of(error);
    holds(chars.as_slice(), "Address already in use") || holds(chars.as_slice(), "os error 98")
}

/// What follows a failed start.
#[derive(Clone, Copy, Debug, PartialEq, Eq, Structural)]
pub enum StartRetry {
    /// Another port is tried.
    Again,
    /// All attempts were used up.
    Exhausted,
    /// The error is final.
    Fail,
}

/// Decides after failed start number `attempt`, counted from one.
pub fn start_retry(attempt: u64, error: &str) -> (r: StartRetry)
    ensures
        r == retry_after(attempt, error@),
{
    if !tproxy_start_error_is_retryable(error) {
        StartRetry::Fail
    } else if attempt < TPROXY_START_ATTEMPTS {
        StartRetry::Again
    } else {
        StartRetry::Exhausted
    }
}

/// How the wait for a child goes on.
#[derive(Clone, Copy, Debug, PartialEq, Eq, Structural)]
pub enum ChildWait {
    Ready,
    Exited,
    Late,
    Wait,
}

/// Decides about a child that was started: it answers, it is gone, its time is over, or
/// it is given more time.
pub fn child_wait(answers: bool, exited: bool, deadline_passed: bool) -> (r: ChildWait)
    ensures
        r == waited(answers, exited, deadline_passed),
{
    if answers {
        ChildWait::Ready
    } else if exited {
        ChildWait::Exited
    } else if deadline_passed {
        ChildWait::Late
    } else {
        ChildWait::Wait
    }
}

/// Whether a route was set up for exactly this profile.
pub fn profile_matches(a: &LocalProxyProfile, b: &LocalProxyProfile) -> (r: bool)
    ensures
        r == (a.host@ == b.host@ && a.id@ == b.id@ && a.name@ == b.name@ && a.port == b.port
            && a.username@ == b.username@ && a.password@ == b.password@),
{
    a.host == b.host && a.id == b.id && a.name == b.name && a.port == b.port && a.username
        == b.username && a.password == b.password
}

/// Gives up the shared rules where this runtime is the one that set them up; tells
/// whether they are to be removed.
pub fn release_policy(active_runtime: &mut u64, runtime_id: u64) -> (r: bool)
    ensures
        r == (*old(active_runtime) == runtime_id),
        *final(active_runtime) == (if r {
            0
        } else {
            *old(active_runtime)
        }),
{
    if *active_runtime == runtime_id {
        *active_runtime = 0;
        true
    } else {
        false
    }
}

/// Whether a command changes the packet filter and must succeed.
pub open spec fn required_iptables(c: PolicyCommand) -> bool {
    c.program@ == "iptables"@ && c.mode == CommandMode::Required
}

/// For each protocol, exactly one of the commands intercepts it: it inserts a rule at the
/// head of the PREROUTING chain of the mangle table that takes packets of that protocol
/// which come in through the interface from the subnet, marks them and hands them to the
/// listener's port. It must succeed.
pub proof fn law_both_protocols_are_intercepted(
    commands: Seq<PolicyCommand>,
    iface: Seq<char>,
    subnet: Seq<char>,
    port: u16,
    protocol: Seq<char>,
)
    requires
        command_views(commands) == port_rules_plan(iface, subnet, port),
        protocol == "tcp"@ || protocol == "udp"@,
    ensures
        exists|k: int| {
            &&& 0 <= k < commands.len()
            &&& required_iptables(#[trigger] commands[k])
            &&& texts(commands[k].args@) == seq![
                "-t"@,
                "mangle"@,
                "-I"@,
                "PREROUTING"@,
                "1"@,
                "-i"@,
                iface,
                "-s"@,
                subnet,
                "-p"@,
                protocol,
                "-m"@,
                "comment"@,
                "--comment"@,
                "CSQTT_TPROXY:"@ + dec(port as nat),
                "-j"@,
                "TPROXY"@,
                "--tproxy-mark"@,
                "0x7531/0x7531"@,
                "--on-port"@,
                dec(port as nat),
            ]
            &&& forall|j: int|
                0 <= j < commands.len() && j != k ==> {
                    let args = texts((#[trigger] commands[j]).args@);
                    args.len() > 10 && args[9] == "-p"@ ==> args[10] != protocol
                }
        },
{
    reveal_strlit("tcp");
    reveal_strlit("udp");
    reveal_strlit("-p");
    reveal_strlit("-m");
    assert("tcp"@[0] != "udp"@[0]);
    let plan = port_rules_plan(iface, subnet, port);
    let views = command_views(commands);
    assert forall|j: int| 0 <= j < commands.len() implies command_view(#[trigger] commands[j])
        == plan[j] by {
        assert(views[j] == command_view(commands[j]));
    }
    assert(commands.len() == 4) by {
        assert(views.len() == commands.len());
    }
    assert("-p"@[1] != "-m"@[1]);
    let k: int = if protocol == "tcp"@ {
        0
    } else {
        1
    };
    assert(command_view(commands[0]) == plan[0]);
    assert(command_view(commands[1]) == plan[1]);
    assert(command_view(commands[2]) == plan[2]);
    assert(command_view(commands[3]) == plan[3]);
    assert(required_iptables(commands[k]));
    assert(texts(commands[k].args@) =~= interception_args(true, protocol, iface, subnet, port));
}

/// Behind the two interceptions, packets of the subnet are kept from connection tracking,
/// and the listener is open to them; every rule is inserted at the head of its chain,
/// carries the comment of its port, and must be in place.
pub proof fn law_intercepted_packets_reach_the_listener(
    commands: Seq<PolicyCommand>,
    iface: Seq<char>,
    subnet: Seq<char>,
    port: u16,
)
    requires
        command_views(commands) == port_rules_plan(iface, subnet, port),
    ensures
        commands.len() == 4,
        forall|k: int| 0 <= k < 4 ==> required_iptables(#[trigger] commands[k]),
        texts(commands[2].args@) == seq![
            "-t"@,
            "raw"@,
            "-I"@,
            "PREROUTING"@,
            "1"@,
            "-i"@,
            iface,
            "-s"@,
            subnet,
            "-m"@,
            "comment"@,
            "--comment"@,
            "CSQTT_TPROXY:"@ + dec(port as nat),
            "-j"@,
            "NOTRACK"@,
        ],
        texts(commands[3].args@) == seq![
            "-t"@,
            "filter"@,
            "-I"@,
            "INPUT"@,
            "1"@,
            "-i"@,
            iface,
            "-s"@,
            subnet,
            "-m"@,
            "comment"@,
            "--comment"@,
            "CSQTT_TPROXY:"@ + dec(port as nat),
            "-j"@,
            "ACCEPT"@,
        ],
{
    let plan = port_rules_plan(iface, subnet, port);
    let views = command_views(commands);
    assert(views.len() == commands.len());
    assert forall|j: int| 0 <= j < commands.len() implies command_view(#[trigger] commands[j])
        == plan[j] by {
        assert(views[j] == command_view(commands[j]));
    }
}

/// The rule that is looked for afterwards is the rule that was inserted: apart from the
/// action and the position, both commands have the same arguments.
pub proof fn law_inserted_rule_is_checked(
    protocol: Seq<char>,
    iface: Seq<char>,
    subnet: Seq<char>,
    port: u16,
)
    ensures
        ({
            let insert = interception_args(true, protocol, iface, subnet, port);
            let check = interception_args(false, protocol, iface, subnet, port);
            &&& insert[2] == "-I"@ && insert[4] == "1"@
            &&& check == insert.remove(4).update(2, "-C"@)
        }),
{
    let insert = interception_args(true, protocol, iface, subnet, port);
    let check = interception_args(false, protocol, iface, subnet, port);
    assert(check =~= insert.remove(4).update(2, "-C"@));
}

/// Marked packets stay on this machine: whatever carries the mark of the interception is
/// looked up in a table of its own, whose only route is local. The rule is replaced, not
/// stacked, and the clean-up deletes the very rule and empties the very table.
pub proof fn law_marked_packets_stay_local()
    ensures
        ({
            let add = shared_rules_plan();
            let undo = shared_cleanup_plan();
            let rule = seq![
                "rule"@,
                "add"@,
                "fwmark"@,
                "0x7531/0x7531"@,
                "priority"@,
                "30001"@,
                "table"@,
                "30001"@,
            ];
            &&& add.len() == 3 && undo.len() == 3
            &&& forall|k: int| 0 <= k < 3 ==> (#[trigger] add[k]).program == "ip"@
            &&& forall|k: int| 0 <= k < 3 ==> (#[trigger] undo[k]).program == "ip"@
            &&& add[0].args == rule.update(1, "del"@) && add[0].mode == CommandMode::UntilFailure
            &&& add[1].args == rule && add[1].mode == CommandMode::Required
            &&& add[2].args == seq![
                "route"@,
                "replace"@,
                "local"@,
                "0.0.0.0/0"@,
                "dev"@,
                "lo"@,
                "table"@,
                rule[7],
            ] && add[2].mode == CommandMode::Required
            &&& undo[0] == add[0]
            &&& undo[1].args == seq!["route"@, "flush"@, "table"@, rule[7]] && undo[1].mode
                == CommandMode::BestEffort
            &&& undo[2].args == seq!["route"@, "flush"@, "cache"@] && undo[2].mode
                == CommandMode::BestEffort
        }),
{
    let rule = seq![
        "rule"@,
        "add"@,
        "fwmark"@,
        "0x7531/0x7531"@,
        "priority"@,
        "30001"@,
        "table"@,
        "30001"@,
    ];
    assert(mark_rule_args("add"@) =~= rule);
    assert(mark_rule_args("del"@) =~= rule.update(1, "del"@));
}

/// Every rule of an earlier release is deleted as often as it is there, never inserted:
/// the rejection of QUIC, the two connection marks, both routing rules; last, the routes of
/// their table are dropped.
pub proof fn law_legacy_rules_are_deleted(subnet: Seq<char>)
    ensures
        ({
            let plan = legacy_rules_plan(subnet);
            &&& plan.len() == 6
            &&& forall|k: int|
                0 <= k < 5 ==> (#[trigger] plan[k]).mode == CommandMode::UntilFailure
            &&& plan[0].program == "iptables"@ && plan[0].args == seq![
                "-D"@,
                "FORWARD"@,
                "-s"@,
                subnet,
                "-p"@,
                "udp"@,
                "--dport"@,
                "443"@,
                "-m"@,
                "comment"@,
                "--comment"@,
                "CSQTT_CASCADE_NO_QUIC"@,
                "-j"@,
                "REJECT"@,
                "--reject-with"@,
                "icmp-port-unreachable"@,
            ]
            &&& forall|k: int|
                1 <= k < 3 ==> (#[trigger] plan[k]).program == "iptables"@ && plan[k].args.take(6)
                    == seq!["-t"@, "mangle"@, "-D"@, "PREROUTING"@, "-s"@, subnet]
            &&& plan[1].args.skip(6) == seq![
                "-m"@,
                "conntrack"@,
                "--ctstate"@,
                "NEW"@,
                "-m"@,
                "comment"@,
                "--comment"@,
                "CSQTT_LOCAL_SOCKS_MARK"@,
                "-j"@,
                "CONNMARK"@,
                "--set-xmark"@,
                "0x422"@,
            ]
            &&& plan[2].args.skip(6) == seq![
                "-m"@,
                "comment"@,
                "--comment"@,
                "CSQTT_LOCAL_SOCKS_MARK"@,
                "-j"@,
                "CONNMARK"@,
                "--restore-mark"@,
            ]
            &&& forall|k: int| 3 <= k < 6 ==> (#[trigger] plan[k]).program == "ip"@
            &&& plan[3].args == seq!["rule"@, "del"@, "fwmark"@, "0x422"@] + seq![
                "priority"@,
                "1066"@,
                "table"@,
                "1066"@,
            ]
            &&& plan[4].args == seq!["rule"@, "del"@, "from"@, subnet] + seq![
                "priority"@,
                "1066"@,
                "table"@,
                "1066"@,
            ]
            &&& plan[5].args == seq!["route"@, "flush"@, "table"@, "1066"@]
            &&& plan[5].mode == CommandMode::BestEffort
        }),
{
    let plan = legacy_rules_plan(subnet);
    assert(plan[3].args =~= seq!["rule"@, "del"@, "fwmark"@, "0x422"@] + seq![
        "priority"@,
        "1066"@,
        "table"@,
        "1066"@,
    ]);
    assert(plan[4].args =~= seq!["rule"@, "del"@, "from"@, subnet] + seq![
        "priority"@,
        "1066"@,
        "table"@,
        "1066"@,
    ]);
    assert(plan[1].args.take(6) =~= seq!["-t"@, "mangle"@, "-D"@, "PREROUTING"@, "-s"@, subnet]);
    assert(plan[2].args.take(6) =~= seq!["-t"@, "mangle"@, "-D"@, "PREROUTING"@, "-s"@, subnet]);
    assert(plan[1].args.skip(6) =~= seq![
        "-m"@,
        "conntrack"@,
        "--ctstate"@,
        "NEW"@,
        "-m"@,
        "comment"@,
        "--comment"@,
        "CSQTT_LOCAL_SOCKS_MARK"@,
        "-j"@,
        "CONNMARK"@,
        "--set-xmark"@,
        "0x422"@,
    ]);
    assert(plan[2].args.skip(6) =~= seq![
        "-m"@,
        "comment"@,
        "--comment"@,
        "CSQTT_LOCAL_SOCKS_MARK"@,
        "-j"@,
        "CONNMARK"@,
        "--restore-mark"@,
    ]);
}

/// An exemption from address translation is deleted by subnet, interface and comment, in
/// that order of its options.
pub proof fn law_nat_exemption_is_deleted(
    subnet: Seq<char>,
    interface: Seq<char>,
    comment: Seq<char>,
)
    ensures
        nat_exemption_args(subnet, interface, comment) == seq!["-t"@, "nat"@, "-D"@]
            + seq!["POSTROUTING"@] + seq!["-s"@, subnet] + seq!["-o"@, interface] + seq![
            "-m"@,
            "comment"@,
            "--comment"@,
            comment,
        ] + seq!["-j"@, "ACCEPT"@],
{
    assert(nat_exemption_args(subnet, interface, comment) =~= seq!["-t"@, "nat"@, "-D"@]
        + seq!["POSTROUTING"@] + seq!["-s"@, subnet] + seq!["-o"@, interface] + seq![
        "-m"@,
        "comment"@,
        "--comment"@,
        comment,
    ] + seq!["-j"@, "ACCEPT"@]);
}

/// The packet filter waits up to two seconds for its lock; any other program is started
/// with its arguments alone.
pub proof fn law_filter_waits_for_its_lock(program: Seq<char>, args: Seq<Seq<char>>)
    ensures
        program != "iptables"@ ==> started_with(program, args) == args,
        program == "iptables"@ ==> started_with(program, args).len() == args.len() + 2
            && started_with(program, args)[0] == "-w"@ && started_with(program, args)[1] == "2"@
            && started_with(program, args).skip(2) == args,
{
    assert((seq!["-w"@, "2"@] + args).skip(2) =~= args);
}

/// Whatever the rules of a port are marked with is found again by the clean-up, and every
/// marker of an earlier release is looked for.
pub proof fn law_every_marker_is_known(port: u16)
    ensures
        contains_text(comment_text(port), all_markers()[0]),
        all_markers().contains("CSQTT_TPROXY"@),
        all_markers().contains("CSQTT_LOCAL_SOCKS"@),
        all_markers().contains("CSQTT_LOCAL_SOCKS_MARK"@),
        all_markers().contains("CSQTT_SOCKS"@),
        all_markers().contains("CSQTT_CASCADE_NO_QUIC"@),
        all_markers().len() == 5,
{
    reveal_strlit("CSQTT_TPROXY");
    reveal_strlit("CSQTT_TPROXY:");
    let m = all_markers();
    assert(m[0] == "CSQTT_TPROXY"@);
    assert(m[1] == "CSQTT_LOCAL_SOCKS"@);
    assert(m[2] == "CSQTT_LOCAL_SOCKS_MARK"@);
    assert(m[3] == "CSQTT_SOCKS"@);
    assert(m[4] == "CSQTT_CASCADE_NO_QUIC"@);
    assert(occurs_at(comment_text(port), "CSQTT_TPROXY"@, 0)) by {
        assert(comment_text(port).subrange(0, 12) =~= "CSQTT_TPROXY"@);
    }
}

/// A chain's rule is a line that appends to that very chain, whether or not options
/// follow; a chain whose name merely begins the same is another chain.
pub proof fn law_chain_rules_name_their_chain(chain: Seq<char>, rest: Seq<char>, c: char)
    ensures
        is_chain_rule("-A "@ + chain, chain),
        is_chain_rule("-A "@ + chain + seq![' '] + rest, chain),
        c != ' ' ==> !is_chain_rule("-A "@ + chain + seq![c] + rest, chain),
{
    let prefix = "-A "@ + chain;
    let a = prefix + seq![' '] + rest;
    let b = prefix + seq![c] + rest;
    let n = prefix.len() as int;
    assert(a.take(n + 1) =~= prefix.push(' '));
    assert(b.len() > prefix.len());
    if starts_with(b, prefix.push(' ')) {
        assert(b.take(n + 1) =~= prefix.push(' '));
        assert(b[n] == b.take(n + 1)[n]);
    }
}

/// A left-over exemption names its interface in the word behind ` -o `; a line without one
/// of the two markers, or without that option, names none.
pub proof fn law_exempt_interface_is_the_word_behind_the_option(
    line: Seq<char>,
    at: int,
    name: Seq<char>,
)
    requires
        occurs_at(line, " -o "@, at),
        forall|j: int| 0 <= j < at ==> !occurs_at(line, " -o "@, j),
        words(line.skip(at + 4)).len() > 0,
        words(line.skip(at + 4))[0] == name,
    ensures
        contains_text(line, "CSQTT_LOCAL_SOCKS"@) ==> exempt_interface(line) == Some(name),
        contains_text(line, "CSQTT_SOCKS"@) ==> exempt_interface(line) == Some(name),
        !contains_text(line, "CSQTT_LOCAL_SOCKS"@) && !contains_text(line, "CSQTT_SOCKS"@)
            ==> exempt_interface(line) is None,
{
    let first = first_at(line, " -o "@);
    assert(occurs_at(line, " -o "@, at) && forall|j: int|
        0 <= j < at ==> !occurs_at(line, " -o "@, j));
    assert(occurs_at(line, " -o "@, first));
    assert(first == at) by {
        if first < at {
            assert(!occurs_at(line, " -o "@, first));
        }
        if at < first {
            assert(!occurs_at(line, " -o "@, at));
        }
    }
    assert(contains_text(line, " -o "@));
}

/// The interfaces found are exactly those that some line names.
#[verifier::rlimit(60)]
pub proof fn law_interfaces_come_from_lines(lines: Seq<Seq<char>>, name: Seq<char>)
    ensures
        forall|i: int|
            0 <= i < lines.len() && exempt_interface(#[trigger] lines[i]) == Some(name)
                ==> interfaces_of(lines).contains(name),
        interfaces_of(lines).contains(name) ==> exists|i: int|
            0 <= i < lines.len() && exempt_interface(#[trigger] lines[i]) == Some(name),
    decreases lines.len(),
{
    if lines.len() > 0 {
        let rest = lines.drop_last();
        law_interfaces_come_from_lines(rest, name);
        assert forall|i: int|
            0 <= i < lines.len() && exempt_interface(#[trigger] lines[i]) == Some(
                name,
            ) implies interfaces_of(lines).contains(name) by {
            if i < rest.len() {
                assert(rest[i] == lines[i]);
            }
        }
        if interfaces_of(lines).contains(name) {
            if interfaces_of(rest).contains(name) {
                let i = choose|i: int|
                    0 <= i < rest.len() && exempt_interface(#[trigger] rest[i]) == Some(name);
                assert(lines[i] == rest[i]);
            } else {
                assert(lines[lines.len() - 1] == lines.last());
            }
        }
    }
}

/// A policy rule is this program's own where the kernel lists it under one of the two
/// priorities and it leads to that priority's table; other rules are left alone.
pub proof fn law_owned_rules_lead_to_their_tables(line: Seq<char>)
    ensures
        is_owned_rule(line) ==> {
            ||| starts_with(trim_start(line), "30001:"@) && contains_text(line, "fwmark 0x7531"@)
            ||| starts_with(trim_start(line), "1066:"@)
        },
        starts_with(trim_start(line), "30001:"@) && contains_text(line, "fwmark 0x7531"@)
            && contains_text(line, "lookup 30001"@) ==> is_owned_rule(line),
        starts_with(trim_start(line), "1066:"@) && contains_text(line, "lookup 1066"@)
            ==> is_owned_rule(line),
        starts_with(trim_start(line), "1066:"@) && contains_text(line, "fwmark 0x422"@)
            ==> is_owned_rule(line),
        is_owned_rule(line) ==> contains_text(line, "lookup 30001"@) || contains_text(
            line,
            "lookup 1066"@,
        ) || contains_text(line, "fwmark 0x422"@),
        is_interception_rule(line) <==> contains_text(line, "fwmark 0x7531"@) && contains_text(
            line,
            "30001"@,
        ),
{
}

/// What follows a start that failed.
pub open spec fn retry_after(attempt: u64, error: Seq<char>) -> StartRetry {
    let busy = contains_text(error, "Address already in use"@) || contains_text(
        error,
        "os error 98"@,
    );
    if !busy {
        StartRetry::Fail
    } else if attempt < TPROXY_START_ATTEMPTS {
        StartRetry::Again
    } else {
        StartRetry::Exhausted
    }
}

/// A start is tried again only where its port was taken, up to eight times.
pub proof fn law_busy_ports_are_tried_again(attempt: u64, error: Seq<char>)
    ensures
        contains_text(error, "Address already in use"@) && attempt < 8 ==> retry_after(
            attempt,
            error,
        ) is Again,
        contains_text(error, "os error 98"@) && attempt < 8 ==> retry_after(attempt, error)
            is Again,
        contains_text(error, "os error 98"@) && attempt >= 8 ==> retry_after(attempt, error)
            is Exhausted,
        contains_text(error, "Address already in use"@) && attempt >= 8 ==> retry_after(
            attempt,
            error,
        ) is Exhausted,
        !contains_text(error, "Address already in use"@) && !contains_text(error, "os error 98"@)
            ==> retry_after(attempt, error) is Fail,
{
}

/// What is known of a child that was started.
pub open spec fn waited(answers: bool, exited: bool, deadline_passed: bool) -> ChildWait {
    if answers {
        ChildWait::Ready
    } else if exited {
        ChildWait::Exited
    } else if deadline_passed {
        ChildWait::Late
    } else {
        ChildWait::Wait
    }
}

/// A child that answers is ready, whatever else; one that ended is not waited for, and one
/// that runs only until the deadline.
pub proof fn law_children_are_waited_for(answers: bool, exited: bool, late: bool)
    ensures
        waited(answers, exited, late) is Ready <==> answers,
        waited(answers, exited, late) is Exited <==> exited && !answers,
        waited(answers, exited, late) is Late <==> late && !answers && !exited,
        waited(answers, exited, late) is Wait <==> !answers && !exited && !late,
{
}

/// A compact error holds the lines that are not blank, without white space around them,
/// separated by semicolons.
pub proof fn law_compact_errors(first: Seq<char>, second: Seq<char>)
    requires
        !first.contains('\n'),
        !second.contains('\n'),
        trim(first) == first,
        trim(second) == second,
        first.len() > 0,
        second.len() > 0,
        first.last() != '\r',
        second.last() != '\r',
    ensures
        compact_error(first + seq!['\n'] + second) == first + "; "@ + second,
        compact_error(first) == first,
{
    let lines = seq![first, second];
    reveal_with_fuel(join, 3);
    reveal_with_fuel(trimmed_items, 3);
    assert(lines.drop_last() =~= seq![first]);
    assert(seq![first].drop_last() =~= Seq::<Seq<char>>::empty());
    assert(join(lines, seq!['\n']) == first + seq!['\n'] + second);
    law_lines_are_read_back(lines);
    law_lines_are_read_back(seq![first]);
    assert(join(seq![first], seq!['\n']) == first);
    assert(trimmed_items(seq![first]) =~= seq![first]);
    assert(trimmed_items(lines) =~= lines);
    assert(join(lines, "; "@) == first + "; "@ + second);
}

/// What is run to loosen reverse path filtering.
pub open spec fn path_filter_plan() -> CommandView {
    CommandView {
        program: "sysctl"@,
        args: seq!["-w"@, "net.ipv4.conf.csqtt1.rp_filter=2"@],
        mode: CommandMode::BestEffort,
    }
}

/// Path filtering is loosened on the tunnel interface alone, and a failure does no harm.
pub proof fn law_path_filter_is_loosened()
    ensures
        path_filter_plan().program == "sysctl"@,
        path_filter_plan().args.len() == 2,
        path_filter_plan().args[0] == "-w"@,
        path_filter_plan().args[1] == "net.ipv4.conf."@ + "csqtt1"@ + ".rp_filter=2"@,
        path_filter_plan().mode == CommandMode::BestEffort,
{
    reveal_strlit("net.ipv4.conf.csqtt1.rp_filter=2");
    reveal_strlit("net.ipv4.conf.");
    reveal_strlit("csqtt1");
    reveal_strlit(".rp_filter=2");
    assert(path_filter_plan().args[1] =~= "net.ipv4.conf."@ + "csqtt1"@ + ".rp_filter=2"@);
}

/// Whether a text is what is kept of an error message.
pub open spec fn error_trimmed(error: Seq<char>, r: Seq<char>) -> bool {
    let whole = compact_error(error);
    if encode_utf8(whole).len() <= MAX_ERROR_BYTES {
        r == whole
    } else {
        encode_utf8(r) == prefix_bytes(encode_utf8(whole), MAX_ERROR_BYTES as nat) + encode_utf8(
            "..."@,
        )
    }
}

/// A short error is kept whole; a long one keeps as much of its beginning as fits into 1536
/// bytes without cutting a character, and says by dots that it was cut.
pub proof fn law_long_errors_are_cut(error: Seq<char>, r: Seq<char>, cut: int)
    requires
        error_trimmed(error, r),
    ensures
        encode_utf8(compact_error(error)).len() <= 1536 ==> r == compact_error(error),
        encode_utf8(compact_error(error)).len() > 1536 ==> {
            let bytes = encode_utf8(r);
            let dots = encode_utf8("..."@);
            &&& bytes.len() <= 1536 + dots.len()
            &&& 0 <= cut <= 1536 && vstd::utf8::is_char_boundary(
                encode_utf8(compact_error(error)),
                cut,
            ) ==> bytes.len() >= cut + dots.len()
            &&& bytes.skip(bytes.len() - dots.len()) == dots
            &&& bytes.take(bytes.len() - dots.len()).is_prefix_of(encode_utf8(compact_error(error)))
        },
{
    let whole = encode_utf8(compact_error(error));
    if whole.len() > 1536 {
        let dots = encode_utf8("..."@);
        let kept = prefix_bytes(whole, 1536);
        law_prefix_is_the_longest(compact_error(error), 1536, cut);
        let bytes = encode_utf8(r);
        assert(bytes.skip(bytes.len() - dots.len()) =~= dots);
        assert(bytes.take(bytes.len() - dots.len()) =~= kept);
    }
}

} // verus!
