use wingsvd::rootd::{RoutingSpec, TproxySpec};
use wingsvd::routing::{
    apply, clear, has_representable_step, listing_sum, mark_bytes_in_chain,
    read_tproxy_mark_bytes, try_read_tproxy_mark_bytes, ApplyStep, CounterStep, Invocation,
};

fn plain_spec() -> RoutingSpec {
    RoutingSpec {
        tunnel_name: "tun0".to_string(),
        app_uid: 10123,
        upstream_table: 1500,
        ipv4_default_routes: vec!["default via 192.168.1.1  dev wlan0".to_string()],
        ipv6_default_routes: vec![],
        rule_priority_start: 10,
        rule_priority_end: 11,
        app_tunnel_priority: 9,
        bypass_uids: vec![],
        dhcp_workaround_enabled: false,
        dhcp_workaround_priority: 0,
        bypass_mark_enabled: false,
        bypass_mark_chain: String::new(),
        bypass_mark_fwmark: 0,
        tproxy: None,
    }
}

fn full_spec() -> RoutingSpec {
    RoutingSpec {
        tunnel_name: "tun0".to_string(),
        app_uid: 10123,
        upstream_table: 1500,
        ipv4_default_routes: vec!["default via 192.168.1.1 dev wlan0".to_string()],
        ipv6_default_routes: vec!["default via fe80::1 dev wlan0".to_string()],
        rule_priority_start: 10,
        rule_priority_end: 11,
        app_tunnel_priority: 9,
        bypass_uids: vec![10200],
        dhcp_workaround_enabled: true,
        dhcp_workaround_priority: 77,
        bypass_mark_enabled: true,
        bypass_mark_chain: "bypass".to_string(),
        bypass_mark_fwmark: 0x1004b,
        tproxy: Some(TproxySpec {
            route_table: 2500,
            rule_priority: 88,
            fwmark: 0x2333,
            mark_chains: vec!["one".to_string(), "two".to_string()],
        }),
    }
}

fn words_of(command: &Invocation) -> String {
    let mut line = command.program.clone();
    for arg in &command.args {
        line.push(' ');
        line.push_str(arg);
    }
    line
}

fn teardown_lines(spec: &RoutingSpec) -> Vec<String> {
    let mut lines = Vec::new();
    let mut done = 0;
    while let Some(command) = clear(spec, done) {
        lines.push(words_of(&command));
        done += 1;
    }
    lines
}

fn install(spec: &RoutingSpec, failing: &str) -> (Vec<String>, Result<(), String>) {
    let mut lines = Vec::new();
    let mut done = 0u128;
    let mut last_ok = true;
    loop {
        assert!(has_representable_step(spec, done));
        match apply(spec, done, last_ok) {
            ApplyStep::Run(command) => {
                let line = words_of(&command);
                last_ok = failing.is_empty() || !line.contains(failing);
                lines.push(line);
                done += 1;
            }
            ApplyStep::Finished(result) => return (lines, result),
        }
    }
}

#[test]
fn teardown_of_a_plain_session() {
    assert_eq!(
        teardown_lines(&plain_spec()),
        vec![
            "ip rule del pref 10",
            "ip -6 rule del pref 10",
            "ip rule del pref 11",
            "ip -6 rule del pref 11",
            "ip rule del pref 9",
            "ip -6 rule del pref 9",
            "ip route flush table 1500",
            "ip -6 route flush table 1500",
            "ndc network protect deny 10123",
        ]
    );
}

#[test]
fn teardown_of_a_full_session() {
    assert_eq!(
        teardown_lines(&full_spec())[8..].to_vec(),
        vec![
            "ip rule del iif lo uidrange 0-0 lookup 97 priority 77",
            "iptables -w -t mangle -D OUTPUT -j bypass",
            "iptables -w -t mangle -F bypass",
            "iptables -w -t mangle -X bypass",
            "ip6tables -w -t mangle -D OUTPUT -j bypass",
            "ip6tables -w -t mangle -F bypass",
            "ip6tables -w -t mangle -X bypass",
            "ip rule del pref 88",
            "ip route flush table 2500",
            "ndc network protect deny 10123",
        ]
    );
}

#[test]
fn teardown_sweeps_the_base_rule_of_an_inverted_block() {
    let mut spec = plain_spec();
    spec.rule_priority_start = 12;
    let lines = teardown_lines(&spec);
    assert_eq!(lines.len(), 7);
    assert_eq!(lines[..2].to_vec(), vec!["ip rule del pref 12", "ip -6 rule del pref 12"]);
}

#[test]
fn teardown_reaches_the_last_priority() {
    let mut spec = plain_spec();
    spec.rule_priority_start = u32::MAX;
    spec.rule_priority_end = u32::MAX;
    let lines = teardown_lines(&spec);
    assert_eq!(lines[0], "ip rule del pref 4294967295");
    assert_eq!(lines[1], "ip -6 rule del pref 4294967295");
    assert_eq!(lines[2], "ip rule del pref 9");
}

#[test]
fn installation_of_a_full_session() {
    let spec = full_spec();
    let (lines, result) = install(&spec, "");
    assert_eq!(result, Ok(()));
    let cleared = teardown_lines(&spec);
    assert_eq!(lines[..cleared.len()].to_vec(), cleared);
    assert_eq!(
        lines[cleared.len()..].to_vec(),
        vec![
            "ndc network protect allow 10123",
            "ip rule add iif lo uidrange 0-0 lookup 97 priority 77",
            "ip route add table 1500 default via 192.168.1.1 dev wlan0",
            "ip -6 route add table 1500 default via fe80::1 dev wlan0",
            "ip rule add pref 10 uidrange 0-0 lookup 1500",
            "ip -6 rule add pref 10 uidrange 0-0 lookup 1500",
            "ip rule add pref 11 uidrange 10200-10200 lookup 1500",
            "ip -6 rule add pref 11 uidrange 10200-10200 lookup 1500",
            "iptables -w -t mangle -N bypass",
            "iptables -w -t mangle -F bypass",
            "iptables -w -t mangle -A bypass -m owner --uid-owner 10200 -j MARK --set-mark 0x1004b",
            "iptables -w -t mangle -A OUTPUT -j bypass",
            "ip6tables -w -t mangle -N bypass",
            "ip6tables -w -t mangle -F bypass",
            "ip6tables -w -t mangle -A bypass -m owner --uid-owner 10200 -j MARK --set-mark 0x1004b",
            "ip6tables -w -t mangle -A OUTPUT -j bypass",
            "ip route add local default dev lo table 2500",
            "ip rule add fwmark 0x2333 lookup 2500 pref 88",
        ]
    );
}

#[test]
fn route_words_are_separate_arguments() {
    let spec = plain_spec();
    let cleared = teardown_lines(&spec).len() as u128;
    match apply(&spec, cleared + 1, true) {
        ApplyStep::Run(command) => assert_eq!(
            command.args,
            vec!["route", "add", "table", "1500", "default", "via", "192.168.1.1", "dev", "wlan0"]
        ),
        ApplyStep::Finished(_) => panic!("the route is missing"),
    }
}

#[test]
fn failed_teardown_commands_do_not_matter() {
    let (_, result) = install(&plain_spec(), "del");
    assert_eq!(result, Ok(()));
}

#[test]
fn failed_ipv4_route_ends_the_installation() {
    let spec = plain_spec();
    let (lines, result) = install(&spec, "route add");
    assert_eq!(
        result,
        Err("ip route add table 1500 default via 192.168.1.1  dev wlan0 failed".to_string())
    );
    assert_eq!(lines.len(), teardown_lines(&spec).len() + 2);
}

#[test]
fn commands_that_may_fail_change_nothing() {
    let spec = full_spec();
    let (lines, result) = install(&spec, "");
    for failing in ["-6", "rule add", "iptables", "ndc", "flush", "MARK"] {
        assert_eq!(install(&spec, failing), (lines.clone(), result.clone()));
    }
}

#[test]
fn failed_ipv6_route_is_no_error() {
    let (_, result) = install(&full_spec(), "-6 route add");
    assert_eq!(result, Ok(()));
}

#[test]
fn failed_local_route_ends_the_installation() {
    let (lines, result) = install(&full_spec(), "route add local");
    assert_eq!(result, Err("ip route add local default dev lo failed".to_string()));
    assert_eq!(lines[lines.len() - 1], "ip route add local default dev lo table 2500");
}

#[test]
fn too_many_bypassed_users_are_an_error() {
    let mut spec = full_spec();
    spec.bypass_uids = vec![10200, 10201];
    let (lines, result) = install(&spec, "");
    assert_eq!(
        result,
        Err("more bypass uids than the 10..11 priority block holds".to_string())
    );
    assert_eq!(
        lines[lines.len() - 1],
        "ip -6 rule add pref 11 uidrange 10200-10200 lookup 1500"
    );
}

#[test]
fn inverted_block_has_room_for_nobody() {
    let mut spec = plain_spec();
    spec.rule_priority_start = 12;
    assert_eq!(install(&spec, "").1, Ok(()));
    spec.bypass_uids = vec![1];
    assert_eq!(
        install(&spec, "").1,
        Err("more bypass uids than the 12..11 priority block holds".to_string())
    );
}

#[test]
fn last_step_may_not_be_representable() {
    let mut spec = plain_spec();
    spec.rule_priority_start = u32::MAX;
    spec.rule_priority_end = u32::MAX;
    spec.bypass_uids = vec![1];
    let mut done = 0u128;
    while has_representable_step(&spec, done) {
        assert!(matches!(apply(&spec, done, true), ApplyStep::Run(_)));
        done += 1;
    }
    // Both base rules were handed out, and the next priority has more than 32 bits.
    match apply(&spec, done - 1, true) {
        ApplyStep::Run(command) => assert_eq!(
            words_of(&command),
            "ip -6 rule add pref 4294967295 uidrange 0-0 lookup 1500"
        ),
        ApplyStep::Finished(_) => panic!("the base rule is missing"),
    }
}

#[test]
fn everything_installed_is_removed() {
    let spec = full_spec();
    let cleared = teardown_lines(&spec);
    let pairs = [
        ("ip rule add pref 10 ", "ip rule del pref 10"),
        ("ip -6 rule add pref 11 ", "ip -6 rule del pref 11"),
        ("ip rule add iif lo ", "ip rule del iif lo uidrange 0-0 lookup 97 priority 77"),
        ("ip route add table 1500 ", "ip route flush table 1500"),
        ("ip -6 route add table 1500 ", "ip -6 route flush table 1500"),
        ("iptables -w -t mangle -N bypass", "iptables -w -t mangle -X bypass"),
        ("ip6tables -w -t mangle -A OUTPUT ", "ip6tables -w -t mangle -D OUTPUT -j bypass"),
        ("ip route add local ", "ip route flush table 2500"),
        ("ip rule add fwmark ", "ip rule del pref 88"),
        ("ndc network protect allow 10123", "ndc network protect deny 10123"),
    ];
    let (installed, _) = install(&spec, "");
    for (added, removed) in pairs {
        assert!(installed.iter().any(|line| line.starts_with(added)));
        assert!(cleared.iter().any(|line| line == removed));
    }
}

#[test]
fn only_routing_tools_are_executed() {
    let (lines, _) = install(&full_spec(), "");
    for line in lines {
        let program = line.split(' ').next().unwrap();
        assert!(["ip", "iptables", "ip6tables", "ndc"].contains(&program));
    }
}

const LISTING: &str = "Chain one (1 references)\n    pkts      bytes target     prot opt in     out     source               destination\n       5     1024 MARK       tcp  --  *      *       0.0.0.0/0            0.0.0.0/0            MARK set 0x1\r\n       9     4096 RETURN     all  --  *      *       0.0.0.0/0            0.0.0.0/0\n       1      +76 MARK       udp  --  *      *       0.0.0.0/0            0.0.0.0/0";

#[test]
fn marking_rules_of_a_listing_are_summed() {
    assert_eq!(listing_sum(LISTING), Some(1100));
    assert_eq!(listing_sum(""), Some(0));
    assert_eq!(listing_sum("1 2"), Some(0));
    assert_eq!(listing_sum("1 2 MARKS"), Some(0));
    assert_eq!(listing_sum("1 -2 MARK"), Some(0));
    assert_eq!(listing_sum("x\u{a0}7\u{2003}MARK"), Some(7));
}

#[test]
fn counters_beyond_64_bits_are_no_number() {
    assert_eq!(listing_sum("1 18446744073709551615 MARK"), Some(u64::MAX));
    assert_eq!(listing_sum("1 18446744073709551616 MARK"), Some(0));
    assert_eq!(listing_sum("1 18446744073709551615 MARK\n1 1 MARK"), None);
}

#[test]
fn listing_bytes_are_decoded() {
    assert_eq!(mark_bytes_in_chain(&Some(LISTING.as_bytes().to_vec())), 1100);
    assert_eq!(mark_bytes_in_chain(&Some(b"\xff 12 MARK".to_vec())), 12);
    assert_eq!(mark_bytes_in_chain(&Some(b"1 1\xff MARK".to_vec())), 0);
    assert_eq!(mark_bytes_in_chain(&None), 0);
}

#[test]
fn counters_of_no_chain_are_zero() {
    assert_eq!(read_tproxy_mark_bytes(&[], &[]), CounterStep::Total(0));
}

#[test]
fn every_chain_is_listed_with_both_tools() {
    let chains = ["one".to_string(), "two".to_string()];
    let mut outputs: Vec<Option<Vec<u8>>> = Vec::new();
    let mut lines = Vec::new();
    let total = loop {
        match read_tproxy_mark_bytes(&chains, &outputs) {
            CounterStep::Run(command) => {
                lines.push(words_of(&command));
                outputs.push(if lines.len() == 2 {
                    None
                } else {
                    Some(b"1 100 MARK".to_vec())
                });
            }
            CounterStep::Total(total) => break total,
        }
    };
    assert_eq!(
        lines,
        vec![
            "iptables -w -t mangle -nvxL one",
            "iptables -w -t mangle -nvxL two",
            "ip6tables -w -t mangle -nvxL one",
            "ip6tables -w -t mangle -nvxL two",
        ]
    );
    assert_eq!(total, 300);
}

#[test]
fn sum_of_chains_may_be_too_large() {
    let chains = ["one".to_string()];
    let big = Some(b"1 18446744073709551615 MARK".to_vec());
    let one = Some(b"1 1 MARK".to_vec());
    assert!(try_read_tproxy_mark_bytes(&chains, &[big.clone()]).is_some());
    assert_eq!(
        try_read_tproxy_mark_bytes(&chains, &[big.clone(), None]),
        Some(CounterStep::Total(u64::MAX))
    );
    assert_eq!(try_read_tproxy_mark_bytes(&chains, &[big, one]), None);
}
