//! The commands that install and remove the routing of a session.
//!
//! Nothing here goes through a shell: a command is a program and its arguments. The plans
//! are sequences of operations, and `clear` and `apply` hand out one command at a time, so
//! that a plan never has to be held in memory as a whole.
//!
//! Teardown never fails. It has to be safe against an unknown state, so no command of
//! `clear_plan` decides anything by its exit status.
use crate::rootd::{RoutingSpec, TproxySpec};
use crate::text::{
    chars_of, chomp, decimal, decimal_string, decode_lossy, hexadecimal, lemma_first_at, lines,
    parse_u64, push_args, push_decimal, push_hexadecimal, same_text, split_whitespace, str_texts,
    string_of, texts, unsigned, utf8_lossy, words,
};
use vstd::prelude::*;

verus! {

broadcast use vstd::string::group_string_axioms;

/// A program to execute with its arguments.
#[derive(Debug, PartialEq, Eq)]
pub struct Invocation {
    pub program: String,
    pub args: Vec<String>,
}

/// The texts of an invocation.
pub struct Call {
    pub program: Seq<char>,
    pub args: Seq<Seq<char>>,
}

impl View for Invocation {
    type V = Call;

    open spec fn view(&self) -> Call {
        Call { program: self.program@, args: texts(self.args@) }
    }
}

/// One change of the kernel's routing state.
pub enum Op {
    /// Delete a rule by its priority.
    RuleDel { v6: bool, pref: nat },
    /// Steer a range of users to a table.
    UidRule { v6: bool, pref: nat, uid_start: nat, uid_end: nat, table: nat },
    /// Add or delete the rule that keeps root's own lookups working.
    DhcpRule { add: bool, pref: nat },
    /// Add a route, given by its words, to a table.
    RouteAdd { v6: bool, table: nat, route: Seq<char> },
    /// Remove all routes of a table.
    RouteFlush { v6: bool, table: nat },
    /// Let a user reach the network outside the tunnel, or take that back.
    Protect { allow: bool, uid: nat },
    /// Create a chain.
    ChainNew { v6: bool, chain: Seq<char> },
    /// Remove the rules of a chain.
    ChainFlush { v6: bool, chain: Seq<char> },
    /// Delete a chain.
    ChainDelete { v6: bool, chain: Seq<char> },
    /// Mark the packets of a user.
    ChainMark { v6: bool, chain: Seq<char>, uid: nat, mark: nat },
    /// Add or delete the jump from the output chain.
    Hook { v6: bool, add: bool, chain: Seq<char> },
    /// Deliver everything in a table locally.
    LocalRoute { table: nat },
    /// Steer marked packets to a table.
    MarkRule { mark: nat, table: nat, pref: nat },
    /// List a chain with its counters.
    ChainList { v6: bool, chain: Seq<char> },
}

/// The flag that selects the address family of the `ip` tool.
pub open spec fn family(v6: bool) -> Seq<Seq<char>> {
    if v6 {
        seq!["-6"@]
    } else {
        seq![]
    }
}

/// The packet filter tool of an address family.
pub open spec fn filter_tool(v6: bool) -> Seq<char> {
    if v6 {
        "ip6tables"@
    } else {
        "iptables"@
    }
}

/// A mark in the form the tools accept.
pub open spec fn mark_text(mark: nat) -> Seq<char> {
    "0x"@ + hexadecimal(mark)
}

/// A call of the packet filter tool on the mangle table.
pub open spec fn mangle(v6: bool, args: Seq<Seq<char>>) -> Call {
    Call { program: filter_tool(v6), args: seq!["-w"@, "-t"@, "mangle"@] + args }
}

/// A call of the `ip` tool.
pub open spec fn ip(v6: bool, args: Seq<Seq<char>>) -> Call {
    Call { program: "ip"@, args: family(v6) + args }
}

impl Op {
    /// The command that carries the operation out.
    pub open spec fn call(self) -> Call {
        match self {
            Op::RuleDel { v6, pref } => ip(v6, seq!["rule"@, "del"@, "pref"@, decimal(pref)]),
            Op::UidRule { v6, pref, uid_start, uid_end, table } => ip(
                v6,
                seq![
                    "rule"@,
                    "add"@,
                    "pref"@,
                    decimal(pref),
                    "uidrange"@,
                    decimal(uid_start) + "-"@ + decimal(uid_end),
                    "lookup"@,
                    decimal(table),
                ],
            ),
            Op::DhcpRule { add, pref } => ip(
                false,
                seq![
                    "rule"@,
                    if add { "add"@ } else { "del"@ },
                    "iif"@,
                    "lo"@,
                    "uidrange"@,
                    "0-0"@,
                    "lookup"@,
                    "97"@,
                    "priority"@,
                    decimal(pref),
                ],
            ),
            Op::RouteAdd { v6, table, route } => ip(
                v6,
                seq!["route"@, "add"@, "table"@, decimal(table)] + words(route),
            ),
            Op::RouteFlush { v6, table } => ip(
                v6,
                seq!["route"@, "flush"@, "table"@, decimal(table)],
            ),
            Op::Protect { allow, uid } => Call {
                program: "ndc"@,
                args: seq![
                    "network"@,
                    "protect"@,
                    if allow { "allow"@ } else { "deny"@ },
                    decimal(uid),
                ],
            },
            Op::ChainNew { v6, chain } => mangle(v6, seq!["-N"@, chain]),
            Op::ChainFlush { v6, chain } => mangle(v6, seq!["-F"@, chain]),
            Op::ChainDelete { v6, chain } => mangle(v6, seq!["-X"@, chain]),
            Op::ChainMark { v6, chain, uid, mark } => mangle(
                v6,
                seq![
                    "-A"@,
                    chain,
                    "-m"@,
                    "owner"@,
                    "--uid-owner"@,
                    decimal(uid),
                    "-j"@,
                    "MARK"@,
                    "--set-mark"@,
                    mark_text(mark),
                ],
            ),
            Op::Hook { v6, add, chain } => mangle(
                v6,
                seq![if add { "-A"@ } else { "-D"@ }, "OUTPUT"@, "-j"@, chain],
            ),
            Op::LocalRoute { table } => ip(
                false,
                seq![
                    "route"@,
                    "add"@,
                    "local"@,
                    "default"@,
                    "dev"@,
                    "lo"@,
                    "table"@,
                    decimal(table),
                ],
            ),
            Op::MarkRule { mark, table, pref } => ip(
                false,
                seq![
                    "rule"@,
                    "add"@,
                    "fwmark"@,
                    mark_text(mark),
                    "lookup"@,
                    decimal(table),
                    "pref"@,
                    decimal(pref),
                ],
            ),
            Op::ChainList { v6, chain } => mangle(v6, seq!["-nvxL"@, chain]),
        }
    }
}

/// The arguments that select the address family of the `ip` tool.
fn ip_family(v6: bool) -> (args: Vec<String>)
    ensures
        texts(args@) == family(v6),
{
    let mut args: Vec<String> = Vec::new();
    if v6 {
        push_args(&mut args, &["-6"]);
    }
    assert(texts(args@) =~= family(v6));
    args
}

/// A call of the `ip` tool.
fn ip_command(v6: bool, args: &[&str]) -> (command: Invocation)
    ensures
        command@ == ip(v6, str_texts(args@)),
{
    let mut all = ip_family(v6);
    push_args(&mut all, args);
    Invocation { program: "ip".to_string(), args: all }
}

/// A call of the packet filter tool on the mangle table.
fn mangle_command(v6: bool, args: &[&str]) -> (command: Invocation)
    ensures
        command@ == mangle(v6, str_texts(args@)),
{
    let mut all: Vec<String> = Vec::new();
    push_args(&mut all, &["-w", "-t", "mangle"]);
    assert(texts(all@) =~= seq!["-w"@, "-t"@, "mangle"@]);
    push_args(&mut all, args);
    let program = if v6 {
        "ip6tables".to_string()
    } else {
        "iptables".to_string()
    };
    Invocation { program, args: all }
}

/// Deletes a rule by its priority.
fn rule_del_pref(v6: bool, pref: u32) -> (command: Invocation)
    ensures
        command@ == (Op::RuleDel { v6, pref: pref as nat }).call(),
{
    let pref_text = decimal_string(pref as u64);
    let command = ip_command(v6, &["rule", "del", "pref", pref_text.as_str()]);
    assert(command@.args =~= (Op::RuleDel { v6, pref: pref as nat }).call().args);
    command
}

/// Steers a range of users to a table.
fn add_uid_rule(v6: bool, priority: u32, uid_start: u32, uid_end: u32, table: u32) -> (command:
    Invocation)
    ensures
        command@ == (Op::UidRule {
            v6,
            pref: priority as nat,
            uid_start: uid_start as nat,
            uid_end: uid_end as nat,
            table: table as nat,
        }).call(),
{
    let pref = decimal_string(priority as u64);
    let mut range = decimal_string(uid_start as u64);
    range.push_str("-");
    push_decimal(&mut range, uid_end as u64);
    let table_text = decimal_string(table as u64);
    let command = ip_command(
        v6,
        &[
            "rule",
            "add",
            "pref",
            pref.as_str(),
            "uidrange",
            range.as_str(),
            "lookup",
            table_text.as_str(),
        ],
    );
    assert(command@.args =~= (Op::UidRule {
        v6,
        pref: priority as nat,
        uid_start: uid_start as nat,
        uid_end: uid_end as nat,
        table: table as nat,
    }).call().args);
    command
}

/// Adds or deletes the rule of the DHCP workaround.
fn dhcp_rule(add: bool, priority: u32) -> (command: Invocation)
    ensures
        command@ == (Op::DhcpRule { add, pref: priority as nat }).call(),
{
    let pref = decimal_string(priority as u64);
    let verb = if add {
        "add"
    } else {
        "del"
    };
    let command = ip_command(
        false,
        &["rule", verb, "iif", "lo", "uidrange", "0-0", "lookup", "97", "priority", pref.as_str()],
    );
    assert(command@.args =~= (Op::DhcpRule { add, pref: priority as nat }).call().args);
    command
}

/// Adds a route to a table.
fn route_add(v6: bool, table: u32, route: &str) -> (command: Invocation)
    ensures
        command@ == (Op::RouteAdd { v6, table: table as nat, route: route@ }).call(),
{
    let table_text = decimal_string(table as u64);
    let mut command = ip_command(v6, &["route", "add", "table", table_text.as_str()]);
    let ghost head = texts(command.args@);
    let mut tail = split_whitespace(route);
    let ghost route_words = texts(tail@);
    command.args.append(&mut tail);
    assert(texts(command.args@) =~= head + route_words);
    assert(command@.args =~= (Op::RouteAdd { v6, table: table as nat, route: route@ }).call().args);
    command
}

/// Removes all routes of a table.
fn route_flush(v6: bool, table: u32) -> (command: Invocation)
    ensures
        command@ == (Op::RouteFlush { v6, table: table as nat }).call(),
{
    let table_text = decimal_string(table as u64);
    let command = ip_command(v6, &["route", "flush", "table", table_text.as_str()]);
    assert(command@.args =~= (Op::RouteFlush { v6, table: table as nat }).call().args);
    command
}

/// Lets a user reach the network outside the tunnel, or takes that back.
fn protect_uid(allow: bool, uid: u32) -> (command: Invocation)
    ensures
        command@ == (Op::Protect { allow, uid: uid as nat }).call(),
{
    let verb = if allow {
        "allow"
    } else {
        "deny"
    };
    let uid_text = decimal_string(uid as u64);
    let mut args: Vec<String> = Vec::new();
    push_args(&mut args, &["network", "protect", verb, uid_text.as_str()]);
    let command = Invocation { program: "ndc".to_string(), args };
    assert(command@.args =~= (Op::Protect { allow, uid: uid as nat }).call().args);
    command
}

/// A mark in the form the tools accept.
fn mark_string(mark: u32) -> (text: String)
    ensures
        text@ == mark_text(mark as nat),
{
    let mut text = "0x".to_string();
    push_hexadecimal(&mut text, mark as u64);
    text
}

/// A call that names a chain after a flag.
fn chain_command(v6: bool, flag: &str, chain: &str) -> (command: Invocation)
    ensures
        command@ == mangle(v6, seq![flag@, chain@]),
{
    let command = mangle_command(v6, &[flag, chain]);
    assert(command@.args =~= mangle(v6, seq![flag@, chain@]).args);
    command
}

/// Marks the packets of a user.
fn chain_mark(v6: bool, chain: &str, uid: u32, mark: u32) -> (command: Invocation)
    ensures
        command@ == (Op::ChainMark {
            v6,
            chain: chain@,
            uid: uid as nat,
            mark: mark as nat,
        }).call(),
{
    let uid_text = decimal_string(uid as u64);
    let mark_hex = mark_string(mark);
    let command = mangle_command(
        v6,
        &[
            "-A",
            chain,
            "-m",
            "owner",
            "--uid-owner",
            uid_text.as_str(),
            "-j",
            "MARK",
            "--set-mark",
            mark_hex.as_str(),
        ],
    );
    assert(command@.args =~= (Op::ChainMark {
        v6,
        chain: chain@,
        uid: uid as nat,
        mark: mark as nat,
    }).call().args);
    command
}

/// Adds or deletes the jump from the output chain.
fn output_hook(v6: bool, add: bool, chain: &str) -> (command: Invocation)
    ensures
        command@ == (Op::Hook { v6, add, chain: chain@ }).call(),
{
    let flag = if add {
        "-A"
    } else {
        "-D"
    };
    let command = mangle_command(v6, &[flag, "OUTPUT", "-j", chain]);
    assert(command@.args =~= (Op::Hook { v6, add, chain: chain@ }).call().args);
    command
}

/// Delivers everything in a table locally.
fn local_route(table: u32) -> (command: Invocation)
    ensures
        command@ == (Op::LocalRoute { table: table as nat }).call(),
{
    let table_text = decimal_string(table as u64);
    let command = ip_command(
        false,
        &["route", "add", "local", "default", "dev", "lo", "table", table_text.as_str()],
    );
    assert(command@.args =~= (Op::LocalRoute { table: table as nat }).call().args);
    command
}

/// Steers marked packets to a table.
fn mark_rule(mark: u32, table: u32, pref: u32) -> (command: Invocation)
    ensures
        command@ == (Op::MarkRule {
            mark: mark as nat,
            table: table as nat,
            pref: pref as nat,
        }).call(),
{
    let mark_hex = mark_string(mark);
    let table_text = decimal_string(table as u64);
    let pref_text = decimal_string(pref as u64);
    let command = ip_command(
        false,
        &[
            "rule",
            "add",
            "fwmark",
            mark_hex.as_str(),
            "lookup",
            table_text.as_str(),
            "pref",
            pref_text.as_str(),
        ],
    );
    assert(command@.args =~= (Op::MarkRule {
        mark: mark as nat,
        table: table as nat,
        pref: pref as nat,
    }).call().args);
    command
}

/// The sweep of the session's priority block: every priority of the block, first for one
/// address family and then for the other. The base rule has the first priority even of a block
/// that ends before it starts, so that one is always swept.
pub open spec fn sweep_ops(spec: RoutingSpec) -> Seq<Op> {
    let start = spec.rule_priority_start as nat;
    let end = spec.rule_priority_end as nat;
    Seq::new(
        if start <= end {
            (2 * (end - start + 1)) as nat
        } else {
            2
        },
        |k: int| Op::RuleDel { v6: k % 2 == 1, pref: (start + k / 2) as nat },
    )
}

/// What is removed of every session.
pub open spec fn tunnel_clear_ops(spec: RoutingSpec) -> Seq<Op> {
    let pref = spec.app_tunnel_priority as nat;
    let table = spec.upstream_table as nat;
    seq![
        Op::RuleDel { v6: false, pref },
        Op::RuleDel { v6: true, pref },
        Op::RouteFlush { v6: false, table },
        Op::RouteFlush { v6: true, table },
    ]
}

/// The removal or the installation of the DHCP workaround.
pub open spec fn dhcp_ops(spec: RoutingSpec, add: bool) -> Seq<Op> {
    if spec.dhcp_workaround_enabled {
        seq![Op::DhcpRule { add, pref: spec.dhcp_workaround_priority as nat }]
    } else {
        seq![]
    }
}

/// The removal of the bypass chain of one address family.
pub open spec fn chain_clear_ops(chain: Seq<char>, v6: bool) -> Seq<Op> {
    seq![
        Op::Hook { v6, add: false, chain },
        Op::ChainFlush { v6, chain },
        Op::ChainDelete { v6, chain },
    ]
}

/// The removal of the bypass chains of a session that names one.
pub open spec fn chains_clear_ops(spec: RoutingSpec) -> Seq<Op> {
    let chain = spec.bypass_mark_chain@;
    if chain.len() > 0 {
        chain_clear_ops(chain, false) + chain_clear_ops(chain, true)
    } else {
        seq![]
    }
}

/// The removal of the transparent proxy's routing.
pub open spec fn tproxy_clear_ops(spec: RoutingSpec) -> Seq<Op> {
    match spec.tproxy {
        Some(tproxy) => seq![
            Op::RuleDel { v6: false, pref: tproxy.rule_priority as nat },
            Op::RouteFlush { v6: false, table: tproxy.route_table as nat },
        ],
        None => seq![],
    }
}

/// The end of the app's permission to reach the network outside the tunnel.
pub open spec fn protect_clear_ops(spec: RoutingSpec) -> Seq<Op> {
    seq![Op::Protect { allow: false, uid: spec.app_uid as nat }]
}

/// The teardown of a session, from the first command to the last.
pub open spec fn clear_plan(spec: RoutingSpec) -> Seq<Op> {
    sweep_ops(spec) + tunnel_clear_ops(spec) + dhcp_ops(spec, false) + chains_clear_ops(spec)
        + tproxy_clear_ops(spec) + protect_clear_ops(spec)
}

/// How many commands the sweep has.
fn sweep_len(spec: &RoutingSpec) -> (len: u64)
    ensures
        len == sweep_ops(*spec).len(),
        len <= 0x2_0000_0000,
{
    let start: u64 = spec.rule_priority_start as u64;
    let end: u64 = spec.rule_priority_end as u64;
    if start <= end {
        2 * (end - start + 1)
    } else {
        2
    }
}

/// Which part of the teardown a command stands in.
proof fn lemma_clear_at(spec: RoutingSpec, i: int)
    requires
        0 <= i < clear_plan(spec).len(),
    ensures
        ({
            let op = clear_plan(spec)[i];
            let tunnel = sweep_ops(spec).len() as int;
            let dhcp = tunnel + 4;
            let chains = dhcp + dhcp_ops(spec, false).len();
            let tproxy = chains + chains_clear_ops(spec).len();
            let protect = tproxy + tproxy_clear_ops(spec).len();
            &&& i < tunnel ==> op == sweep_ops(spec)[i]
            &&& tunnel <= i < dhcp ==> op == tunnel_clear_ops(spec)[i - tunnel]
            &&& dhcp <= i < chains ==> op == dhcp_ops(spec, false)[i - dhcp]
            &&& chains <= i < tproxy ==> op == chains_clear_ops(spec)[i - chains]
            &&& tproxy <= i < protect ==> op == tproxy_clear_ops(spec)[i - tproxy]
            &&& protect <= i ==> i == protect && op == protect_clear_ops(spec)[0]
        }),
{
}

/// The command of the teardown that follows the first `done` ones, or nothing when these
/// are all.
///
/// Teardown removes everything that `apply` may have installed. The priority block is swept
/// by number, so no bookkeeping has to survive the daemon.
pub fn clear(spec: &RoutingSpec, done: u64) -> (next: Option<Invocation>)
    ensures
        next is Some == (done < clear_plan(*spec).len()),
        next matches Some(command) ==> command@ == clear_plan(*spec)[done as int].call(),
{
    proof {
        if done < clear_plan(*spec).len() {
            lemma_clear_at(*spec, done as int);
        }
    }
    let swept: u64 = sweep_len(spec);
    if done < swept {
        let pref: u32 = (spec.rule_priority_start as u64 + done / 2) as u32;
        return Some(rule_del_pref(done % 2 == 1, pref));
    }
    let mut i: u64 = done - swept;
    if i == 0 {
        return Some(rule_del_pref(false, spec.app_tunnel_priority));
    }
    if i == 1 {
        return Some(rule_del_pref(true, spec.app_tunnel_priority));
    }
    if i == 2 {
        return Some(route_flush(false, spec.upstream_table));
    }
    if i == 3 {
        return Some(route_flush(true, spec.upstream_table));
    }
    i = i - 4;
    if spec.dhcp_workaround_enabled {
        if i == 0 {
            return Some(dhcp_rule(false, spec.dhcp_workaround_priority));
        }
        i = i - 1;
    }
    let chain = spec.bypass_mark_chain.as_str();
    if !chain.is_empty() {
        if i < 6 {
            let v6 = i >= 3;
            let step: u64 = i % 3;
            if step == 0 {
                return Some(output_hook(v6, false, chain));
            }
            if step == 1 {
                return Some(chain_command(v6, "-F", chain));
            }
            return Some(chain_command(v6, "-X", chain));
        }
        i = i - 6;
    }
    match &spec.tproxy {
        Some(tproxy) => {
            if i == 0 {
                return Some(rule_del_pref(false, tproxy.rule_priority));
            }
            if i == 1 {
                return Some(route_flush(false, tproxy.route_table));
            }
            i = i - 2;
        },
        None => {},
    }
    if i == 0 {
        return Some(protect_uid(false, spec.app_uid));
    }
    None
}

/// One command of the installation, with the error that its failure ends it with. A
/// command without one may fail.
pub struct Task {
    pub op: Op,
    pub required: Option<Seq<char>>,
}

/// A task that may fail.
pub open spec fn quiet(op: Op) -> Task {
    Task { op, required: None }
}

/// Tasks that may fail.
pub open spec fn quiet_all(ops: Seq<Op>) -> Seq<Task> {
    Seq::new(ops.len(), |i: int| quiet(ops[i]))
}

/// The error of an IPv4 default route that could not be added.
pub open spec fn route_error(table: nat, route: Seq<char>) -> Seq<char> {
    "ip route add table "@ + decimal(table) + " "@ + route + " failed"@
}

/// The IPv4 default routes of the upstream table. Each of them has to succeed.
pub open spec fn v4_route_tasks(spec: RoutingSpec) -> Seq<Task> {
    let table = spec.upstream_table as nat;
    Seq::new(
        spec.ipv4_default_routes@.len(),
        |i: int|
            Task {
                op: Op::RouteAdd { v6: false, table, route: spec.ipv4_default_routes@[i]@ },
                required: Some(route_error(table, spec.ipv4_default_routes@[i]@)),
            },
    )
}

/// The IPv6 default routes of the upstream table, which may fail: plenty of networks have no
/// IPv6 default at all.
pub open spec fn v6_route_tasks(spec: RoutingSpec) -> Seq<Task> {
    Seq::new(
        spec.ipv6_default_routes@.len(),
        |i: int|
            quiet(
                Op::RouteAdd {
                    v6: true,
                    table: spec.upstream_table as nat,
                    route: spec.ipv6_default_routes@[i]@,
                },
            ),
    )
}

/// How many of the bypassed users the priority block has room for.
pub open spec fn bypass_room(spec: RoutingSpec) -> nat {
    let room = spec.rule_priority_end - spec.rule_priority_start;
    if room < 0 {
        0
    } else if room < spec.bypass_uids@.len() {
        room as nat
    } else {
        spec.bypass_uids@.len()
    }
}

/// Whether the priority block has room for all bypassed users.
pub open spec fn bypass_fits(spec: RoutingSpec) -> bool {
    bypass_room(spec) == spec.bypass_uids@.len()
}

/// The user that the `slot`-th priority of the block is for: root at its start, then the
/// bypassed users.
pub open spec fn slot_uid(spec: RoutingSpec, slot: int) -> nat {
    if slot == 0 {
        0
    } else {
        spec.bypass_uids@[slot - 1] as nat
    }
}

/// The rules of the priority block, one for each address family: the base rule steers root's
/// own traffic, and one for each bypassed user follows it, as far as the block has room.
pub open spec fn uid_rule_tasks(spec: RoutingSpec) -> Seq<Task> {
    Seq::new(
        2 * (1 + bypass_room(spec)),
        |k: int|
            quiet(
                Op::UidRule {
                    v6: k % 2 == 1,
                    pref: (spec.rule_priority_start + k / 2) as nat,
                    uid_start: slot_uid(spec, k / 2),
                    uid_end: slot_uid(spec, k / 2),
                    table: spec.upstream_table as nat,
                },
            ),
    )
}

/// The bypass chain of one address family: it marks the bypassed users' packets with the
/// underlying network's mark.
pub open spec fn mark_chain_tasks(spec: RoutingSpec, v6: bool) -> Seq<Task> {
    let chain = spec.bypass_mark_chain@;
    seq![quiet(Op::ChainNew { v6, chain }), quiet(Op::ChainFlush { v6, chain })] + Seq::new(
        spec.bypass_uids@.len(),
        |i: int|
            quiet(
                Op::ChainMark {
                    v6,
                    chain,
                    uid: spec.bypass_uids@[i] as nat,
                    mark: spec.bypass_mark_fwmark as nat,
                },
            ),
    ) + seq![quiet(Op::Hook { v6, add: true, chain })]
}

/// The bypass chains of a session that marks bypassed packets.
pub open spec fn mark_tasks(spec: RoutingSpec) -> Seq<Task> {
    if spec.bypass_mark_enabled {
        mark_chain_tasks(spec, false) + mark_chain_tasks(spec, true)
    } else {
        seq![]
    }
}

/// The transparent proxy's routing. Its route has to succeed.
pub open spec fn tproxy_tasks(spec: RoutingSpec) -> Seq<Task> {
    match spec.tproxy {
        Some(tproxy) => seq![
            Task {
                op: Op::LocalRoute { table: tproxy.route_table as nat },
                required: Some("ip route add local default dev lo failed"@),
            },
            quiet(
                Op::MarkRule {
                    mark: tproxy.fwmark as nat,
                    table: tproxy.route_table as nat,
                    pref: tproxy.rule_priority as nat,
                },
            ),
        ],
        None => seq![],
    }
}

/// The tasks that come before the rules of the priority block.
pub open spec fn prelude_tasks(spec: RoutingSpec) -> Seq<Task> {
    quiet_all(clear_plan(spec)) + seq![
        quiet(Op::Protect { allow: true, uid: spec.app_uid as nat }),
    ] + quiet_all(dhcp_ops(spec, true)) + v4_route_tasks(spec) + v6_route_tasks(spec)
}

/// The installation of a session, from the first command to the last. It starts with the
/// teardown, so that rules left behind by an earlier session do not make the priorities
/// ambiguous. Where the priority block is too small, it ends with the last user that fits.
pub open spec fn apply_plan(spec: RoutingSpec) -> Seq<Task> {
    prelude_tasks(spec) + uid_rule_tasks(spec) + if bypass_fits(spec) {
        mark_tasks(spec) + tproxy_tasks(spec)
    } else {
        seq![]
    }
}

/// The error of a priority block that has no room for all bypassed users.
pub open spec fn block_error(spec: RoutingSpec) -> Seq<char> {
    "more bypass uids than the "@ + decimal(spec.rule_priority_start as nat) + ".."@ + decimal(
        spec.rule_priority_end as nat,
    ) + " priority block holds"@
}

/// What the installation comes to when no required command fails.
pub open spec fn apply_verdict(spec: RoutingSpec) -> Result<(), Seq<char>> {
    if bypass_fits(spec) {
        Ok(())
    } else {
        Err(block_error(spec))
    }
}

/// Whether the priorities of the bypassed users, up to the first one beyond the block, are
/// numbers of 32 bits.
pub open spec fn priorities_representable(spec: RoutingSpec) -> bool {
    spec.bypass_uids@.len() == 0 || (spec.rule_priority_start < u32::MAX && (spec.rule_priority_end
        < u32::MAX || spec.rule_priority_start + spec.bypass_uids@.len() <= u32::MAX))
}

/// What the installation does next.
#[derive(Debug, PartialEq, Eq)]
pub enum ApplyStep {
    /// Execute a command, and report whether it exited with status 0.
    Run(Invocation),
    /// Nothing more: the installation came to this.
    Finished(Result<(), String>),
}

/// The texts of a step.
pub enum ApplyStepView {
    Run(Call),
    Finished(Result<(), Seq<char>>),
}

/// A result with the text of its error.
pub open spec fn result_text(result: Result<(), String>) -> Result<(), Seq<char>> {
    match result {
        Ok(_) => Ok(()),
        Err(message) => Err(message@),
    }
}

impl View for ApplyStep {
    type V = ApplyStepView;

    open spec fn view(&self) -> ApplyStepView {
        match *self {
            ApplyStep::Run(command) => ApplyStepView::Run(command@),
            ApplyStep::Finished(result) => ApplyStepView::Finished(result_text(result)),
        }
    }
}

/// What the installation does after `done` commands, the last of which exited with status 0
/// exactly if `last_ok`.
pub open spec fn apply_step(spec: RoutingSpec, done: nat, last_ok: bool) -> ApplyStepView {
    let plan = apply_plan(spec);
    if 0 < done <= plan.len() && !last_ok && plan[done - 1].required is Some {
        ApplyStepView::Finished(Err(plan[done - 1].required->0))
    } else if done < plan.len() {
        ApplyStepView::Run(plan[done as int].op.call())
    } else {
        ApplyStepView::Finished(apply_verdict(spec))
    }
}

/// How many of the bypassed users the priority block has room for.
fn bypass_room_of(spec: &RoutingSpec) -> (room: usize)
    ensures
        room == bypass_room(*spec),
{
    let count: usize = spec.bypass_uids.len();
    if spec.rule_priority_end < spec.rule_priority_start {
        return 0;
    }
    let room: u32 = spec.rule_priority_end - spec.rule_priority_start;
    if (room as u128) < count as u128 {
        room as usize
    } else {
        count
    }
}

/// How many commands the teardown has.
fn clear_len(spec: &RoutingSpec) -> (len: u64)
    ensures
        len == clear_plan(*spec).len(),
        len <= 0x2_0000_0010,
{
    let mut len: u64 = sweep_len(spec) + 5;
    if spec.dhcp_workaround_enabled {
        len = len + 1;
    }
    if !spec.bypass_mark_chain.as_str().is_empty() {
        len = len + 6;
    }
    if spec.tproxy.is_some() {
        len = len + 2;
    }
    len
}

/// The command number `i` of the bypass chain of one address family.
fn apply_bypass_mark(spec: &RoutingSpec, v6: bool, i: u128) -> (command: Invocation)
    requires
        i < mark_chain_tasks(*spec, v6).len(),
    ensures
        command@ == mark_chain_tasks(*spec, v6)[i as int].op.call(),
{
    let chain = spec.bypass_mark_chain.as_str();
    if i == 0 {
        chain_command(v6, "-N", chain)
    } else if i == 1 {
        chain_command(v6, "-F", chain)
    } else if i - 2 < spec.bypass_uids.len() as u128 {
        let at: usize = (i - 2) as usize;
        chain_mark(v6, chain, spec.bypass_uids[at], spec.bypass_mark_fwmark)
    } else {
        output_hook(v6, true, chain)
    }
}

/// The command number `i` of the transparent proxy's routing, or nothing beyond its end.
fn apply_tproxy(tproxy: &TproxySpec, i: u128) -> (next: Option<Invocation>)
    ensures
        next is Some == (i < 2),
        next matches Some(command) ==> command@ == (if i == 0 {
            Op::LocalRoute { table: tproxy.route_table as nat }
        } else {
            Op::MarkRule {
                mark: tproxy.fwmark as nat,
                table: tproxy.route_table as nat,
                pref: tproxy.rule_priority as nat,
            }
        }).call(),
{
    if i == 0 {
        Some(local_route(tproxy.route_table))
    } else if i == 1 {
        Some(mark_rule(tproxy.fwmark, tproxy.route_table, tproxy.rule_priority))
    } else {
        None
    }
}

/// The command number `i` in front of the rules of the priority block, with how many
/// commands stand there.
fn prelude_command(spec: &RoutingSpec, done: u128) -> (next: (Option<Invocation>, u128))
    ensures
        next.1 == prelude_tasks(*spec).len(),
        next.1 <= 0x2_0000_0020 + 2 * usize::MAX,
        next.0 is Some == (done < prelude_tasks(*spec).len()),
        next.0 matches Some(command) ==> command@
            == prelude_tasks(*spec)[done as int].op.call(),
{
    let cleared: u128 = clear_len(spec) as u128;
    let dhcp: u128 = if spec.dhcp_workaround_enabled {
        1
    } else {
        0
    };
    let v4: u128 = spec.ipv4_default_routes.len() as u128;
    let v6: u128 = spec.ipv6_default_routes.len() as u128;
    let total: u128 = cleared + 1 + dhcp + v4 + v6;
    if done < cleared {
        return (clear(spec, done as u64), total);
    }
    let mut i: u128 = done - cleared;
    if i == 0 {
        return (Some(protect_uid(true, spec.app_uid)), total);
    }
    i = i - 1;
    if i < dhcp {
        return (Some(dhcp_rule(true, spec.dhcp_workaround_priority)), total);
    }
    i = i - dhcp;
    if i < v4 {
        let at: usize = i as usize;
        return (
            Some(route_add(false, spec.upstream_table, spec.ipv4_default_routes[at].as_str())),
            total,
        );
    }
    i = i - v4;
    if i < v6 {
        let at: usize = i as usize;
        return (
            Some(route_add(true, spec.upstream_table, spec.ipv6_default_routes[at].as_str())),
            total,
        );
    }
    (None, total)
}

/// The command number `done` of the installation, or nothing beyond its end.
fn apply_command(spec: &RoutingSpec, done: u128) -> (next: Option<Invocation>)
    ensures
        next is Some == (done < apply_plan(*spec).len()),
        next matches Some(command) ==> command@ == apply_plan(*spec)[done as int].op.call(),
{
    let (early, before): (Option<Invocation>, u128) = prelude_command(spec, done);
    if early.is_some() {
        return early;
    }
    let mut i: u128 = done - before;
    let room: usize = bypass_room_of(spec);
    let rules: u128 = 2 * (1 + room as u128);
    if i < rules {
        let slot: usize = (i / 2) as usize;
        let priority: u32 = (spec.rule_priority_start as u128 + i / 2) as u32;
        let uid: u32 = if slot == 0 {
            0
        } else {
            spec.bypass_uids[slot - 1]
        };
        return Some(add_uid_rule(i % 2 == 1, priority, uid, uid, spec.upstream_table));
    }
    i = i - rules;
    if room < spec.bypass_uids.len() {
        return None;
    }
    if spec.bypass_mark_enabled {
        let block: u128 = spec.bypass_uids.len() as u128 + 3;
        if i < block {
            return Some(apply_bypass_mark(spec, false, i));
        }
        i = i - block;
        if i < block {
            return Some(apply_bypass_mark(spec, true, i));
        }
        i = i - block;
    }
    match &spec.tproxy {
        Some(tproxy) => apply_tproxy(tproxy, i),
        None => None,
    }
}

/// Where the commands that have to succeed stand in the plan.
proof fn lemma_required_at(spec: RoutingSpec, i: int)
    requires
        0 <= i < apply_plan(spec).len(),
    ensures
        ({
            let task = apply_plan(spec)[i];
            let first = clear_plan(spec).len() + 1 + dhcp_ops(spec, true).len();
            let v4 = v4_route_tasks(spec).len();
            let local = prelude_tasks(spec).len() + uid_rule_tasks(spec).len() + mark_tasks(
                spec,
            ).len();
            &&& first <= i < first + v4 ==> task == v4_route_tasks(spec)[i - first]
            &&& bypass_fits(spec) && local <= i ==> task == tproxy_tasks(spec)[i - local]
            &&& !(first <= i < first + v4) && !(bypass_fits(spec) && local <= i)
                ==> task.required is None
        }),
{
    let plan = apply_plan(spec);
    let prelude = prelude_tasks(spec);
    let rules = uid_rule_tasks(spec);
    let marks = mark_tasks(spec);
    if i < prelude.len() {
        assert(plan[i] == prelude[i]);
    } else if i < prelude.len() + rules.len() {
        assert(plan[i] == rules[i - prelude.len()]);
    } else {
        let rest = i - prelude.len() - rules.len();
        if rest < marks.len() {
            assert(plan[i] == marks[rest]);
        } else {
            assert(plan[i] == tproxy_tasks(spec)[rest - marks.len()]);
        }
    }
}

/// The error that a failure of command number `at` ends the installation with, if it does.
fn failure_message(spec: &RoutingSpec, at: u128) -> (message: Option<String>)
    ensures
        message is Some == (at < apply_plan(*spec).len() && apply_plan(
            *spec,
        )[at as int].required is Some),
        message matches Some(text) ==> text@ == apply_plan(*spec)[at as int].required->0,
{
    proof {
        if at < apply_plan(*spec).len() {
            lemma_required_at(*spec, at as int);
        }
    }
    let dhcp: u128 = if spec.dhcp_workaround_enabled {
        1
    } else {
        0
    };
    let first: u128 = clear_len(spec) as u128 + 1 + dhcp;
    let v4: u128 = spec.ipv4_default_routes.len() as u128;
    if first <= at && at < first + v4 {
        let i: usize = (at - first) as usize;
        let mut text = "ip route add table ".to_string();
        push_decimal(&mut text, spec.upstream_table as u64);
        text.push_str(" ");
        text.push_str(spec.ipv4_default_routes[i].as_str());
        text.push_str(" failed");
        return Some(text);
    }
    let room: usize = bypass_room_of(spec);
    if room < spec.bypass_uids.len() || spec.tproxy.is_none() {
        return None;
    }
    let rules: u128 = 2 * (1 + room as u128);
    let marks: u128 = if spec.bypass_mark_enabled {
        2 * (spec.bypass_uids.len() as u128 + 3)
    } else {
        0
    };
    let local: u128 = first + v4 + spec.ipv6_default_routes.len() as u128 + rules + marks;
    if at == local {
        return Some("ip route add local default dev lo failed".to_string());
    }
    None
}

/// Whether the step after `done` commands of an installation can be numbered: only the end of
/// the plan needs the first priority beyond the block.
pub open spec fn step_representable(spec: RoutingSpec, done: nat) -> bool {
    done < apply_plan(spec).len() || priorities_representable(spec)
}

/// Whether `apply` can number the step after `done` commands.
pub fn has_representable_step(spec: &RoutingSpec, done: u128) -> (representable: bool)
    ensures
        representable == step_representable(*spec, done as nat),
{
    if apply_command(spec, done).is_some() {
        return true;
    }
    let count: usize = spec.bypass_uids.len();
    count == 0 || (spec.rule_priority_start < u32::MAX && (spec.rule_priority_end < u32::MAX
        || count as u128 + spec.rule_priority_start as u128 <= u32::MAX as u128))
}

/// What the installation of a session does next, after `done` commands of which the last
/// exited with status 0 exactly if `last_ok`. Nothing is known of a command before the first
/// one, so `last_ok` has no meaning there.
pub fn apply(spec: &RoutingSpec, done: u128, last_ok: bool) -> (step: ApplyStep)
    requires
        step_representable(*spec, done as nat),
    ensures
        step@ == apply_step(*spec, done as nat, last_ok),
{
    if done > 0 && !last_ok {
        match failure_message(spec, done - 1) {
            Some(message) => return ApplyStep::Finished(Err(message)),
            None => {},
        }
    }
    match apply_command(spec, done) {
        Some(command) => ApplyStep::Run(command),
        None => {
            if bypass_room_of(spec) == spec.bypass_uids.len() {
                ApplyStep::Finished(Ok(()))
            } else {
                let mut text = "more bypass uids than the ".to_string();
                push_decimal(&mut text, spec.rule_priority_start as u64);
                text.push_str("..");
                push_decimal(&mut text, spec.rule_priority_end as u64);
                text.push_str(" priority block holds");
                ApplyStep::Finished(Err(text))
            }
        },
    }
}

/// The bytes that one line of a chain listing contributes: the second column where the third
/// one says that the rule marks packets.
pub open spec fn line_bytes(line: Seq<char>) -> nat {
    let columns = words(line);
    if columns.len() >= 3 && unsigned(columns[1], u64::MAX as nat) is Some && columns[2]
        == "MARK"@ {
        unsigned(columns[1], u64::MAX as nat)->0
    } else {
        0
    }
}

/// The bytes that lines of a chain listing contribute together.
pub open spec fn lines_bytes(list: Seq<Seq<char>>) -> nat
    decreases list.len(),
{
    if list.len() == 0 {
        0
    } else {
        line_bytes(list[0]) + lines_bytes(list.drop_first())
    }
}

/// The sum of the byte counters of the marking rules in a chain listing.
pub open spec fn listing_bytes(text: Seq<char>) -> nat {
    lines_bytes(lines(text, '\n', '\r'))
}

/// The bytes counted by one chain: `None` stands for a listing that failed, as that of a chain
/// that does not exist yet.
pub open spec fn chain_bytes(output: Option<Seq<u8>>) -> nat {
    match output {
        Some(stdout) => listing_bytes(utf8_lossy(stdout)),
        None => 0,
    }
}

/// What a listing printed, if it succeeded.
pub open spec fn stdout_of(output: Option<Vec<u8>>) -> Option<Seq<u8>> {
    match output {
        Some(stdout) => Some(stdout@),
        None => None,
    }
}

/// The bytes counted by the chains whose listings these are.
pub open spec fn total_bytes(outputs: Seq<Option<Vec<u8>>>) -> nat
    decreases outputs.len(),
{
    if outputs.len() == 0 {
        0
    } else {
        total_bytes(outputs.drop_last()) + chain_bytes(stdout_of(outputs.last()))
    }
}

/// The bytes of one line, as a number.
fn marked_bytes(line: &str) -> (bytes: u64)
    ensures
        bytes == line_bytes(line@),
{
    let columns = split_whitespace(line);
    assert(forall|i: int|
        0 <= i < columns@.len() ==> #[trigger] texts(columns@)[i] == columns@[i]@);
    assert(texts(columns@).len() == columns@.len());
    if columns.len() < 3 {
        return 0;
    }
    assert(words(line@)[1] == columns@[1]@ && words(line@)[2] == columns@[2]@);
    match parse_u64(columns[1].as_str()) {
        Some(bytes) => if same_text(columns[2].as_str(), "MARK") {
            bytes
        } else {
            0
        },
        None => 0,
    }
}

/// The byte counters of a chain listing together, or nothing when the sum has more than 64
/// bits.
pub fn listing_sum(text: &str) -> (sum: Option<u64>)
    ensures
        sum is Some == (listing_bytes(text@) <= u64::MAX),
        sum matches Some(bytes) ==> bytes == listing_bytes(text@),
{
    let chars = chars_of(text);
    let mut sum: u64 = 0;
    let mut start: usize = 0;
    assert(chars@.skip(0) =~= chars@);
    while start < chars.len()
        invariant
            chars@ == text@,
            start <= chars@.len(),
            sum + lines_bytes(lines(chars@.skip(start as int), '\n', '\r')) == listing_bytes(text@),
        decreases chars@.len() - start,
    {
        let ghost rest = chars@.skip(start as int);
        let mut end: usize = start;
        while end < chars.len() && chars[end] != '\n'
            invariant
                start <= end <= chars@.len(),
                forall|j: int| start <= j < end ==> #[trigger] chars@[j] != '\n',
            decreases chars@.len() - end,
        {
            end = end + 1;
        }
        proof {
            lemma_first_at(rest, '\n', (end - start) as nat);
        }
        let mut stop: usize = end;
        let mut next: usize = end;
        if end < chars.len() {
            next = end + 1;
            if end > start && chars[end - 1] == '\r' {
                stop = end - 1;
            }
        }
        let line = string_of(&chars, start, stop);
        let bytes: u64 = marked_bytes(line.as_str());
        proof {
            let list = lines(rest, '\n', '\r');
            let tail = lines(chars@.skip(next as int), '\n', '\r');
            if end < chars@.len() {
                assert(rest.take(end - start) =~= chars@.subrange(start as int, end as int));
                assert(chomp(rest.take(end - start), '\r') =~= line@);
                assert(rest.skip(end - start + 1) =~= chars@.skip(next as int));
                assert(list =~= seq![line@] + tail);
            } else {
                assert(rest =~= line@);
                assert(chars@.skip(next as int) =~= seq![]);
                assert(list =~= seq![line@] + tail);
            }
            assert(list.drop_first() =~= tail);
            assert(lines_bytes(list) == bytes + lines_bytes(tail));
        }
        if bytes > u64::MAX - sum {
            return None;
        }
        sum = sum + bytes;
        start = next;
    }
    assert(chars@.skip(start as int) =~= seq![]);
    Some(sum)
}

/// The byte counters of the marking rules in one chain together, given what its listing
/// printed.
pub fn mark_bytes_in_chain(output: &Option<Vec<u8>>) -> (bytes: u64)
    requires
        chain_bytes(stdout_of(*output)) <= u64::MAX,
    ensures
        bytes == chain_bytes(stdout_of(*output)),
{
    match output {
        Some(stdout) => {
            let text = decode_lossy(stdout.as_slice());
            match listing_sum(text.as_str()) {
                Some(bytes) => bytes,
                None => 0,
            }
        },
        None => 0,
    }
}

/// What reading the counters does next.
#[derive(Debug, PartialEq, Eq)]
pub enum CounterStep {
    /// Execute a command, and report what it printed if it exited with status 0.
    Run(Invocation),
    /// Nothing more: so many bytes were counted.
    Total(u64),
}

/// The texts of a step.
pub enum CounterStepView {
    Run(Call),
    Total(nat),
}

impl View for CounterStep {
    type V = CounterStepView;

    open spec fn view(&self) -> CounterStepView {
        match *self {
            CounterStep::Run(command) => CounterStepView::Run(command@),
            CounterStep::Total(bytes) => CounterStepView::Total(bytes as nat),
        }
    }
}

/// The listings to make: every chain with the tool of one address family, then every chain
/// with the other's.
pub open spec fn counter_plan(chains: Seq<String>) -> Seq<Op> {
    Seq::new(chains.len(), |i: int| Op::ChainList { v6: false, chain: chains[i]@ }) + Seq::new(
        chains.len(),
        |i: int| Op::ChainList { v6: true, chain: chains[i]@ },
    )
}

/// What reading the counters does after the listings `outputs`.
pub open spec fn counter_step(
    chains: Seq<String>,
    outputs: Seq<Option<Vec<u8>>>,
) -> CounterStepView {
    if outputs.len() < counter_plan(chains).len() {
        CounterStepView::Run(counter_plan(chains)[outputs.len() as int].call())
    } else {
        CounterStepView::Total(total_bytes(outputs))
    }
}

/// The next listing to make, given how many were made.
fn counter_command(chains: &[String], made: usize) -> (next: Option<Invocation>)
    ensures
        next is Some == (made < counter_plan(chains@).len()),
        next matches Some(command) ==> command@ == counter_plan(chains@)[made as int].call(),
{
    let count: usize = chains.len();
    if made < count {
        Some(chain_command(false, "-nvxL", chains[made].as_str()))
    } else if made - count < count {
        Some(chain_command(true, "-nvxL", chains[made - count].as_str()))
    } else {
        None
    }
}

/// Reads the byte counters of the marking rules in the session's chains: the next listing to
/// make, or the sum when `outputs` are what all of them printed.
pub fn read_tproxy_mark_bytes(chains: &[String], outputs: &[Option<Vec<u8>>]) -> (step:
    CounterStep)
    requires
        outputs@.len() >= counter_plan(chains@).len() ==> total_bytes(outputs@) <= u64::MAX,
    ensures
        step@ == counter_step(chains@, outputs@),
{
    match counter_command(chains, outputs.len()) {
        Some(command) => CounterStep::Run(command),
        None => {
            let mut total: u64 = 0;
            let mut i: usize = 0;
            assert(outputs@.take(0) =~= seq![]);
            while i < outputs.len()
                invariant
                    i <= outputs@.len(),
                    total == total_bytes(outputs@.take(i as int)),
                    total_bytes(outputs@) <= u64::MAX,
                decreases outputs@.len() - i,
            {
                proof {
                    lemma_total_grows(outputs@, i + 1);
                    assert(outputs@.take(i + 1).drop_last() =~= outputs@.take(i as int));
                }
                total = total + mark_bytes_in_chain(&outputs[i]);
                i = i + 1;
            }
            assert(outputs@.take(i as int) =~= outputs@);
            CounterStep::Total(total)
        },
    }
}

proof fn lemma_total_grows(outputs: Seq<Option<Vec<u8>>>, n: int)
    requires
        0 <= n <= outputs.len(),
    ensures
        total_bytes(outputs.take(n)) <= total_bytes(outputs),
    decreases outputs.len(),
{
    if n < outputs.len() {
        lemma_total_grows(outputs.drop_last(), n);
        assert(outputs.drop_last().take(n) =~= outputs.take(n));
    } else {
        assert(outputs.take(n) =~= outputs);
    }
}

/// Reads the byte counters as `read_tproxy_mark_bytes` does, for any listings: the answer is
/// `None` exactly if the sum of the counters has more than 64 bits.
pub fn try_read_tproxy_mark_bytes(chains: &[String], outputs: &[Option<Vec<u8>>]) -> (step:
    Option<CounterStep>)
    ensures
        step is None == (outputs@.len() >= counter_plan(chains@).len() && total_bytes(outputs@)
            > u64::MAX),
        step matches Some(next) ==> next@ == counter_step(chains@, outputs@),
{
    if counter_command(chains, outputs.len()).is_none() {
        let mut total: u64 = 0;
        let mut i: usize = 0;
        assert(outputs@.take(0) =~= seq![]);
        while i < outputs.len()
            invariant
                i <= outputs@.len(),
                outputs@.len() >= counter_plan(chains@).len(),
                total == total_bytes(outputs@.take(i as int)),
            decreases outputs@.len() - i,
        {
            proof {
                lemma_total_grows(outputs@, i + 1);
                assert(outputs@.take(i + 1).drop_last() =~= outputs@.take(i as int));
            }
            let bytes: Option<u64> = match &outputs[i] {
                Some(stdout) => listing_sum(decode_lossy(stdout.as_slice()).as_str()),
                None => Some(0),
            };
            match bytes {
                Some(counted) => {
                    if counted > u64::MAX - total {
                        return None;
                    }
                    total = total + counted;
                },
                None => return None,
            }
            i = i + 1;
        }
        assert(outputs@.take(i as int) =~= outputs@);
    }
    Some(read_tproxy_mark_bytes(chains, outputs))
}

/// Whether a program is one of those that routing is done with.
pub open spec fn is_tool(program: Seq<char>) -> bool {
    ||| program == "ip"@
    ||| program == "iptables"@
    ||| program == "ip6tables"@
    ||| program == "ndc"@
}

/// Every command executes one of four programs, and none of them is a shell.
pub proof fn programs_are_fixed(op: Op)
    ensures
        is_tool(op.call().program),
{
}

/// An installation starts with the teardown of the same session, and no command of that decides
/// anything.
pub proof fn installation_starts_clean(spec: RoutingSpec)
    ensures
        clear_plan(spec).len() <= apply_plan(spec).len(),
        apply_plan(spec).take(clear_plan(spec).len() as int) == quiet_all(clear_plan(spec)),
        forall|i: int, last_ok: bool|
            0 <= i < clear_plan(spec).len() ==> #[trigger] apply_step(spec, i as nat, last_ok)
                == ApplyStepView::Run(clear_plan(spec)[i].call()),
{
    assert(apply_plan(spec).take(clear_plan(spec).len() as int) =~= quiet_all(clear_plan(spec)));
    assert forall|i: int, last_ok: bool| 0 <= i < clear_plan(spec).len() implies #[trigger] apply_step(
        spec,
        i as nat,
        last_ok,
    ) == ApplyStepView::Run(clear_plan(spec)[i].call()) by {
        assert(apply_plan(spec)[i] == quiet(clear_plan(spec)[i]));
        assert(i > 0 ==> apply_plan(spec)[i - 1] == quiet(clear_plan(spec)[i - 1]));
    }
}

/// The rules of the priority block keep to it: the base rule has its first priority, and no
/// rule has one beyond the last. Rules of one address family have different priorities.
pub proof fn rules_keep_to_the_block(spec: RoutingSpec, i: int, j: int)
    requires
        0 <= i < uid_rule_tasks(spec).len(),
        0 <= j < uid_rule_tasks(spec).len(),
    ensures
        uid_rule_tasks(spec)[i].op matches Op::UidRule { v6, pref, .. } && {
            &&& spec.rule_priority_start <= pref
            &&& pref <= spec.rule_priority_end || pref == spec.rule_priority_start
            &&& uid_rule_tasks(spec)[j].op matches Op::UidRule { v6: other_v6, pref: other, .. } && (v6
                == other_v6 && pref == other ==> i == j)
        },
{
}

/// Whether an operation adds something to the kernel's routing state that a teardown can take
/// away.
pub open spec fn installs(op: Op) -> bool {
    match op {
        Op::UidRule { .. } => true,
        Op::DhcpRule { add, .. } => add,
        Op::RouteAdd { .. } => true,
        Op::Protect { allow, .. } => allow,
        Op::ChainNew { .. } => true,
        Op::ChainMark { .. } => true,
        Op::Hook { add, .. } => add,
        Op::LocalRoute { .. } => true,
        Op::MarkRule { .. } => true,
        _ => false,
    }
}

/// Whether an operation takes away what another one adds.
pub open spec fn removes(op: Op, installed: Op) -> bool {
    match installed {
        Op::UidRule { v6, pref, .. } => op == (Op::RuleDel { v6, pref }),
        Op::DhcpRule { pref, .. } => op == (Op::DhcpRule { add: false, pref }),
        Op::RouteAdd { v6, table, .. } => op == (Op::RouteFlush { v6, table }),
        Op::Protect { uid, .. } => op == (Op::Protect { allow: false, uid }),
        Op::ChainNew { v6, chain } => op == (Op::ChainDelete { v6, chain }),
        Op::ChainMark { v6, chain, .. } => op == (Op::ChainFlush { v6, chain }),
        Op::Hook { v6, chain, .. } => op == (Op::Hook { v6, add: false, chain }),
        Op::LocalRoute { table } => op == (Op::RouteFlush { v6: false, table }),
        Op::MarkRule { pref, .. } => op == (Op::RuleDel { v6: false, pref }),
        _ => false,
    }
}

/// Whether an operation is about a chain without a name, with which the teardown does not deal.
pub open spec fn is_nameless(op: Op) -> bool {
    match op {
        Op::ChainNew { chain, .. } => chain.len() == 0,
        Op::ChainMark { chain, .. } => chain.len() == 0,
        Op::Hook { chain, .. } => chain.len() == 0,
        _ => false,
    }
}

proof fn lemma_clear_parts(spec: RoutingSpec, op: Op)
    requires
        ({
            ||| sweep_ops(spec).contains(op)
            ||| tunnel_clear_ops(spec).contains(op)
            ||| dhcp_ops(spec, false).contains(op)
            ||| chains_clear_ops(spec).contains(op)
            ||| tproxy_clear_ops(spec).contains(op)
            ||| protect_clear_ops(spec).contains(op)
        }),
    ensures
        clear_plan(spec).contains(op),
{
    broadcast use vstd::seq_lib::group_seq_properties;

}

proof fn lemma_mark_tasks(spec: RoutingSpec, v6: bool, task: Task)
    requires
        mark_chain_tasks(spec, v6).contains(task),
    ensures
        ({
            let chain = spec.bypass_mark_chain@;
            ||| task.op == (Op::ChainNew { v6, chain })
            ||| task.op == (Op::ChainFlush { v6, chain })
            ||| task.op matches Op::ChainMark { v6: other, chain: given, .. } && other == v6 && given
                == chain
            ||| task.op == (Op::Hook { v6, add: true, chain })
        }),
{
}

proof fn lemma_chains_cleared(spec: RoutingSpec, v6: bool)
    requires
        spec.bypass_mark_chain@.len() > 0,
    ensures
        ({
            let chain = spec.bypass_mark_chain@;
            &&& clear_plan(spec).contains(Op::Hook { v6, add: false, chain })
            &&& clear_plan(spec).contains(Op::ChainFlush { v6, chain })
            &&& clear_plan(spec).contains(Op::ChainDelete { v6, chain })
        }),
{
    let chain = spec.bypass_mark_chain@;
    let at: int = if v6 {
        3
    } else {
        0
    };
    let ops = chains_clear_ops(spec);
    assert(ops[at] == (Op::Hook { v6, add: false, chain }));
    assert(ops[at + 1] == (Op::ChainFlush { v6, chain }));
    assert(ops[at + 2] == (Op::ChainDelete { v6, chain }));
    lemma_clear_parts(spec, ops[at]);
    lemma_clear_parts(spec, ops[at + 1]);
    lemma_clear_parts(spec, ops[at + 2]);
}

proof fn lemma_teardown_takes(spec: RoutingSpec, op: Op) -> (taker: Op)
    requires
        installs(op),
        !is_nameless(op),
        ({
            ||| exists|k: int|
                0 <= k < uid_rule_tasks(spec).len() && #[trigger] uid_rule_tasks(spec)[k].op == op
            ||| dhcp_ops(spec, true).contains(op)
            ||| op matches Op::RouteAdd { table, .. } && table == spec.upstream_table
            ||| op == (Op::Protect { allow: true, uid: spec.app_uid as nat })
            ||| mark_chain_tasks(spec, false).contains(quiet(op))
            ||| mark_chain_tasks(spec, true).contains(quiet(op))
            ||| exists|k: int|
                0 <= k < tproxy_tasks(spec).len() && #[trigger] tproxy_tasks(spec)[k].op == op
        }),
    ensures
        clear_plan(spec).contains(taker),
        removes(taker, op),
{
    if exists|k: int|
        0 <= k < uid_rule_tasks(spec).len() && #[trigger] uid_rule_tasks(spec)[k].op == op {
        let k = choose|k: int|
            0 <= k < uid_rule_tasks(spec).len() && #[trigger] uid_rule_tasks(spec)[k].op == op;
        assert(k < sweep_ops(spec).len());
        let taker = sweep_ops(spec)[k];
        lemma_clear_parts(spec, taker);
        taker
    } else if dhcp_ops(spec, true).contains(op) {
        let taker = dhcp_ops(spec, false)[0];
        lemma_clear_parts(spec, taker);
        taker
    } else if op is Protect {
        let taker = protect_clear_ops(spec)[0];
        lemma_clear_parts(spec, taker);
        taker
    } else if op matches Op::RouteAdd { v6, table, .. } && table == spec.upstream_table {
        let at: int = if op->RouteAdd_v6 {
            3
        } else {
            2
        };
        let taker = tunnel_clear_ops(spec)[at];
        lemma_clear_parts(spec, taker);
        taker
    } else if exists|k: int|
        0 <= k < tproxy_tasks(spec).len() && #[trigger] tproxy_tasks(spec)[k].op == op {
        let k = choose|k: int|
            0 <= k < tproxy_tasks(spec).len() && #[trigger] tproxy_tasks(spec)[k].op == op;
        let taker = tproxy_clear_ops(spec)[1 - k];
        lemma_clear_parts(spec, taker);
        taker
    } else {
        let v6 = !mark_chain_tasks(spec, false).contains(quiet(op));
        lemma_mark_tasks(spec, v6, quiet(op));
        lemma_chains_cleared(spec, v6);
        let chain = spec.bypass_mark_chain@;
        match op {
            Op::ChainNew { .. } => Op::ChainDelete { v6, chain },
            Op::ChainMark { .. } => Op::ChainFlush { v6, chain },
            _ => Op::Hook { v6, add: false, chain },
        }
    }
}

proof fn lemma_installed(spec: RoutingSpec, i: int)
    requires
        0 <= i < apply_plan(spec).len(),
        installs(apply_plan(spec)[i].op),
    ensures
        ({
            let op = apply_plan(spec)[i].op;
            ||| exists|k: int|
                0 <= k < uid_rule_tasks(spec).len() && #[trigger] uid_rule_tasks(spec)[k].op == op
            ||| dhcp_ops(spec, true).contains(op)
            ||| op matches Op::RouteAdd { table, .. } && table == spec.upstream_table
            ||| op == (Op::Protect { allow: true, uid: spec.app_uid as nat })
            ||| mark_chain_tasks(spec, false).contains(quiet(op))
            ||| mark_chain_tasks(spec, true).contains(quiet(op))
            ||| exists|k: int|
                0 <= k < tproxy_tasks(spec).len() && #[trigger] tproxy_tasks(spec)[k].op == op
        }),
{
    let plan = apply_plan(spec);
    let op = plan[i].op;
    let prelude = prelude_tasks(spec);
    let rules = uid_rule_tasks(spec);
    if i < prelude.len() {
        let cleared = clear_plan(spec).len();
        let dhcp = dhcp_ops(spec, true).len();
        assert(plan[i] == prelude[i]);
        if i < cleared {
            assert(prelude[i] == quiet(clear_plan(spec)[i]));
            assert(!installs(clear_plan(spec)[i]));
        } else if i == cleared {
            assert(prelude[i] == quiet(Op::Protect { allow: true, uid: spec.app_uid as nat }));
        } else if i < cleared + 1 + dhcp {
            assert(prelude[i] == quiet(dhcp_ops(spec, true)[i - cleared - 1]));
        } else {
            assert(prelude[i].op is RouteAdd);
        }
    } else if i < prelude.len() + rules.len() {
        assert(rules[i - prelude.len()].op == op);
    } else {
        let rest = i - prelude.len() - rules.len();
        let marks = mark_tasks(spec);
        if rest < marks.len() {
            let one = mark_chain_tasks(spec, false);
            let other = mark_chain_tasks(spec, true);
            assert(plan[i] == marks[rest]);
            if rest < one.len() {
                assert(one[rest] == plan[i]);
                assert(plan[i] == quiet(op));
            } else {
                assert(other[rest - one.len()] == plan[i]);
                assert(plan[i] == quiet(op));
            }
        } else {
            assert(tproxy_tasks(spec)[rest - marks.len()].op == op);
        }
    }
}

/// The teardown of a session takes away everything that its installation adds to the kernel's
/// routing state, however far the installation came: rules, routes, chains with a name, and the
/// app's permission to reach the network outside the tunnel.
pub proof fn teardown_removes_what_was_installed(spec: RoutingSpec, i: int)
    requires
        0 <= i < apply_plan(spec).len(),
        installs(apply_plan(spec)[i].op),
        !is_nameless(apply_plan(spec)[i].op),
    ensures
        exists|j: int|
            0 <= j < clear_plan(spec).len() && removes(
                #[trigger] clear_plan(spec)[j],
                apply_plan(spec)[i].op,
            ),
{
    lemma_installed(spec, i);
    let taker = lemma_teardown_takes(spec, apply_plan(spec)[i].op);
    let j = choose|j: int| 0 <= j < clear_plan(spec).len() && clear_plan(spec)[j] == taker;
    assert(removes(clear_plan(spec)[j], apply_plan(spec)[i].op));
}

/// The commands that an installation executes when they exit as `exits` says, from the
/// `done`-th command on.
pub open spec fn executed(spec: RoutingSpec, exits: spec_fn(nat) -> bool, done: nat) -> Seq<Call>
    decreases apply_plan(spec).len() - done,
{
    match apply_step(spec, done, done > 0 && exits((done - 1) as nat)) {
        ApplyStepView::Run(call) => if done < apply_plan(spec).len() {
            seq![call] + executed(spec, exits, done + 1)
        } else {
            seq![]
        },
        ApplyStepView::Finished(_) => seq![],
    }
}

/// What an installation comes to when its commands exit as `exits` says, from the `done`-th
/// command on.
pub open spec fn installation(
    spec: RoutingSpec,
    exits: spec_fn(nat) -> bool,
    done: nat,
) -> Result<(), Seq<char>>
    decreases apply_plan(spec).len() - done,
{
    match apply_step(spec, done, done > 0 && exits((done - 1) as nat)) {
        ApplyStepView::Run(_) => if done < apply_plan(spec).len() {
            installation(spec, exits, done + 1)
        } else {
            Ok(())
        },
        ApplyStepView::Finished(result) => result,
    }
}

/// Whether a command has to succeed and does not.
pub open spec fn breaks(spec: RoutingSpec, exits: spec_fn(nat) -> bool, i: nat) -> bool {
    i < apply_plan(spec).len() && apply_plan(spec)[i as int].required is Some && !exits(i)
}

proof fn lemma_installation(spec: RoutingSpec, exits: spec_fn(nat) -> bool, done: nat)
    requires
        done <= apply_plan(spec).len(),
        forall|i: nat| i + 1 < done ==> !breaks(spec, exits, i),
    ensures
        (forall|i: nat| !breaks(spec, exits, i)) ==> installation(spec, exits, done)
            == apply_verdict(spec),
        forall|i: nat|
            #![trigger breaks(spec, exits, i)]
            breaks(spec, exits, i) && (forall|j: nat| j < i ==> !breaks(spec, exits, j))
                ==> installation(spec, exits, done) == Err::<(), Seq<char>>(
                apply_plan(spec)[i as int].required->0,
            ),
    decreases apply_plan(spec).len() - done,
{
    if done > 0 && breaks(spec, exits, (done - 1) as nat) {
        let last = (done - 1) as nat;
        assert forall|i: nat|
            #![trigger breaks(spec, exits, i)]
            breaks(spec, exits, i) && (forall|j: nat| j < i ==> !breaks(spec, exits, j)) implies installation(
            spec,
            exits,
            done,
        ) == Err::<(), Seq<char>>(apply_plan(spec)[i as int].required->0) by {
            assert(i >= last);
            if i > last {
                assert(!breaks(spec, exits, last));
            }
        }
    } else if done < apply_plan(spec).len() {
        assert forall|i: nat| i + 1 < done + 1 implies !breaks(spec, exits, i) by {
            assert(i + 1 < done || i == done - 1);
        }
        lemma_installation(spec, exits, done + 1);
    } else {
        assert forall|i: nat| !breaks(spec, exits, i) by {
            if breaks(spec, exits, i) {
                assert(i + 1 < done || i == done - 1);
            }
        }
    }
}

/// An installation succeeds exactly if the priority block has room for all bypassed users and
/// every command that has to succeed does. If one of these fails, the first that does gives
/// the error.
pub proof fn installations_fail_for_a_reason(
    spec: RoutingSpec,
    exits: spec_fn(nat) -> bool,
    failed: nat,
)
    ensures
        installation(spec, exits, 0) is Ok <==> bypass_fits(spec) && (forall|i: nat|
            !breaks(spec, exits, i)),
        breaks(spec, exits, failed) && (forall|j: nat| j < failed ==> !breaks(spec, exits, j))
            ==> installation(spec, exits, 0) == Err::<(), Seq<char>>(
            apply_plan(spec)[failed as int].required->0,
        ),
        !bypass_fits(spec) && (forall|i: nat| !breaks(spec, exits, i)) ==> installation(
            spec,
            exits,
            0,
        ) == Err::<(), Seq<char>>(block_error(spec)),
{
    lemma_installation(spec, exits, 0);
    if exists|i: nat| breaks(spec, exits, i) {
        let i = choose|i: nat| breaks(spec, exits, i);
        lemma_first_break(spec, exits, i);
    }
}

proof fn lemma_first_break(spec: RoutingSpec, exits: spec_fn(nat) -> bool, i: nat)
    requires
        breaks(spec, exits, i),
    ensures
        exists|k: nat|
            #![trigger breaks(spec, exits, k)]
            breaks(spec, exits, k) && forall|j: nat| j < k ==> !breaks(spec, exits, j),
    decreases i,
{
    if exists|j: nat| j < i && breaks(spec, exits, j) {
        let j = choose|j: nat| j < i && breaks(spec, exits, j);
        lemma_first_break(spec, exits, j);
    }
}

proof fn lemma_runs_agree(
    spec: RoutingSpec,
    first: spec_fn(nat) -> bool,
    second: spec_fn(nat) -> bool,
    done: nat,
)
    requires
        forall|i: nat|
            i < apply_plan(spec).len() && (#[trigger] apply_plan(spec)[i as int]).required is Some
                ==> first(i) == second(i),
    ensures
        installation(spec, first, done) == installation(spec, second, done),
        executed(spec, first, done) == executed(spec, second, done),
    decreases apply_plan(spec).len() - done,
{
    let plan = apply_plan(spec);
    if 0 < done <= plan.len() {
        let last = (done - 1) as nat;
        assert(plan[last as int].required is Some ==> first(last) == second(last));
    }
    if done < plan.len() {
        lemma_runs_agree(spec, first, second, done + 1);
    }
}

/// Only the commands that have to succeed matter: where these exit alike, two installations of
/// a session execute the same commands and come to the same result, however the others exit.
pub proof fn only_required_commands_matter(
    spec: RoutingSpec,
    first: spec_fn(nat) -> bool,
    second: spec_fn(nat) -> bool,
)
    requires
        forall|i: nat|
            i < apply_plan(spec).len() && (#[trigger] apply_plan(spec)[i as int]).required is Some
                ==> first(i) == second(i),
    ensures
        installation(spec, first, 0) == installation(spec, second, 0),
        executed(spec, first, 0) == executed(spec, second, 0),
{
    lemma_runs_agree(spec, first, second, 0);
}

/// The commands that have to succeed are the IPv4 routes of the upstream table and the
/// transparent proxy's local route, and no others.
pub proof fn only_routes_are_required(spec: RoutingSpec, i: int)
    requires
        0 <= i < apply_plan(spec).len(),
    ensures
        apply_plan(spec)[i].required is Some <==> ({
            ||| apply_plan(spec)[i].op matches Op::RouteAdd { v6, .. } && !v6
            ||| apply_plan(spec)[i].op is LocalRoute
        }),
{
    let plan = apply_plan(spec);
    let prelude = prelude_tasks(spec);
    let rules = uid_rule_tasks(spec);
    if i < prelude.len() {
        assert(plan[i] == prelude[i]);
        let cleared = clear_plan(spec).len();
        if i < cleared {
            assert(prelude[i] == quiet(clear_plan(spec)[i]));
            assert(!installs(clear_plan(spec)[i]));
        }
    } else if i < prelude.len() + rules.len() {
        assert(plan[i] == rules[i - prelude.len()]);
    } else {
        let rest = i - prelude.len() - rules.len();
        let marks = mark_tasks(spec);
        if rest < marks.len() {
            assert(plan[i] == marks[rest]);
        } else {
            assert(plan[i] == tproxy_tasks(spec)[rest - marks.len()]);
        }
    }
}

/// A chain whose listing failed counts nothing, wherever it stands among the others.
pub proof fn missing_chains_count_nothing(
    before: Seq<Option<Vec<u8>>>,
    after: Seq<Option<Vec<u8>>>,
)
    ensures
        total_bytes(before + seq![None] + after) == total_bytes(before + after),
    decreases after.len(),
{
    let whole = before + seq![None] + after;
    if after.len() == 0 {
        assert(whole.drop_last() =~= before);
        assert(before + after =~= before);
    } else {
        missing_chains_count_nothing(before, after.drop_last());
        assert(whole.drop_last() =~= before + seq![None] + after.drop_last());
        assert((before + after).drop_last() =~= before + after.drop_last());
    }
}

} // verus!
