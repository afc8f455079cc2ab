//! What the plans of `routing` are for, stated of the session they are made for.
//!
//! The statements here speak of single users, priorities, routes and chains of a session and of
//! the commands that deal with them, and not of how a plan is put together.
use crate::rootd::{RoutingSpec, TproxySpec};
use crate::routing::{
    apply_plan, block_error, breaks, bypass_fits, bypass_room, chains_clear_ops, clear_plan,
    counter_plan, counter_step, dhcp_ops, executed, line_bytes, lines_bytes, listing_bytes,
    mark_chain_tasks, mark_tasks, prelude_tasks, priorities_representable, protect_clear_ops, quiet,
    sweep_ops, total_bytes, tproxy_clear_ops, tproxy_tasks, tunnel_clear_ops, uid_rule_tasks,
    v4_route_tasks, v6_route_tasks, Call, CounterStepView, Op, Task,
};
use crate::text::{
    decimal, decimal_reads_back, fields, first_field_ends_at_the_separator, hex_number,
    hexadecimal_reads_back, is_space, lines, lines_end_at_newlines, one_word, unsigned,
    utf8_lossy, words, words_are_separated,
};
use vstd::prelude::*;

verus! {

broadcast use vstd::string::group_string_axioms;

proof fn lemma_prelude_at(spec: RoutingSpec, i: int)
    requires
        0 <= i < prelude_tasks(spec).len(),
    ensures
        i < apply_plan(spec).len(),
        apply_plan(spec)[i] == prelude_tasks(spec)[i],
{
}

proof fn lemma_rule_at(spec: RoutingSpec, k: int)
    requires
        0 <= k < uid_rule_tasks(spec).len(),
    ensures
        prelude_tasks(spec).len() + k < apply_plan(spec).len(),
        apply_plan(spec)[prelude_tasks(spec).len() + k] == uid_rule_tasks(spec)[k],
{
}

proof fn lemma_mark_at(spec: RoutingSpec, k: int)
    requires
        bypass_fits(spec),
        0 <= k < mark_tasks(spec).len(),
    ensures
        prelude_tasks(spec).len() + uid_rule_tasks(spec).len() + k < apply_plan(spec).len(),
        apply_plan(spec)[prelude_tasks(spec).len() + uid_rule_tasks(spec).len() + k] == mark_tasks(
            spec,
        )[k],
{
}

/// Every user that is bypassed has a rule of its own in each address family, as far as the
/// priority block reaches: the `i`-th of them has the `i`-th priority behind the first.
pub proof fn every_bypassed_user_has_a_rule(spec: RoutingSpec, i: int, v6: bool) -> (at: int)
    requires
        0 <= i < spec.bypass_uids@.len(),
        spec.rule_priority_start + 1 + i <= spec.rule_priority_end,
    ensures
        0 <= at < apply_plan(spec).len(),
        apply_plan(spec)[at].op == (Op::UidRule {
            v6,
            pref: (spec.rule_priority_start + 1 + i) as nat,
            uid_start: spec.bypass_uids@[i] as nat,
            uid_end: spec.bypass_uids@[i] as nat,
            table: spec.upstream_table as nat,
        }),
{
    let k = 2 * (1 + i) + (if v6 {
        1int
    } else {
        0
    });
    assert(i < bypass_room(spec));
    lemma_rule_at(spec, k);
    assert(k / 2 == 1 + i);
    prelude_tasks(spec).len() + k
}

/// Root's own traffic is steered to the upstream table in each address family, with the first
/// priority of the block.
pub proof fn root_has_the_first_rule(spec: RoutingSpec, v6: bool) -> (at: int)
    ensures
        0 <= at < apply_plan(spec).len(),
        apply_plan(spec)[at].op == (Op::UidRule {
            v6,
            pref: spec.rule_priority_start as nat,
            uid_start: 0,
            uid_end: 0,
            table: spec.upstream_table as nat,
        }),
{
    let k = if v6 {
        1int
    } else {
        0
    };
    lemma_rule_at(spec, k);
    assert(k / 2 == 0);
    prelude_tasks(spec).len() + k
}

/// Whether a user is one that a session steers past the tunnel with this priority.
pub open spec fn is_steered(spec: RoutingSpec, uid: nat, pref: nat) -> bool {
    ||| uid == 0 && pref == spec.rule_priority_start
    ||| exists|i: int|
        0 <= i < spec.bypass_uids@.len() && #[trigger] spec.bypass_uids@[i] == uid && pref
            == spec.rule_priority_start + 1 + i && pref <= spec.rule_priority_end
}

/// Only root and the bypassed users have rules, each for itself and to the upstream table.
pub proof fn only_bypassed_users_have_rules(spec: RoutingSpec, at: int)
    requires
        0 <= at < apply_plan(spec).len(),
    ensures
        apply_plan(spec)[at].op matches Op::UidRule { v6, pref, uid_start, uid_end, table } ==> {
            &&& uid_start == uid_end
            &&& table == spec.upstream_table
            &&& is_steered(spec, uid_start, pref)
        },
{
    lemma_task_kinds(spec, at);
    let from = prelude_tasks(spec).len();
    if apply_plan(spec)[at].op is UidRule {
        let k = at - from;
        assert(uid_rule_tasks(spec)[k] == apply_plan(spec)[at]);
        if k / 2 > 0 {
            let i = k / 2 - 1;
            assert(i < bypass_room(spec));
            assert(spec.bypass_uids@[i] == spec.bypass_uids@[k / 2 - 1]);
        }
    }
}

/// Which part of the plan a task stands in.
proof fn lemma_task_kinds(spec: RoutingSpec, at: int)
    requires
        0 <= at < apply_plan(spec).len(),
    ensures
        ({
            let task = apply_plan(spec)[at];
            let cleared = clear_plan(spec).len();
            let prelude = prelude_tasks(spec).len();
            let rules = uid_rule_tasks(spec).len();
            let marks = mark_tasks(spec).len();
            &&& at < cleared ==> task == quiet(clear_plan(spec)[at])
            &&& task.op is UidRule <==> prelude <= at < prelude + rules
            &&& at == cleared ==> task == quiet(
                Op::Protect { allow: true, uid: spec.app_uid as nat },
            )
            &&& cleared < at < prelude ==> task.op is DhcpRule || task.op is RouteAdd
            &&& at >= prelude + rules ==> bypass_fits(spec)
            &&& prelude + rules <= at < prelude + rules + marks ==> task == mark_tasks(
                spec,
            )[at - prelude - rules]
            &&& prelude + rules + marks <= at ==> task == tproxy_tasks(
                spec,
            )[at - prelude - rules - marks]
        }),
{
    let plan = apply_plan(spec);
    let prelude = prelude_tasks(spec);
    let rules = uid_rule_tasks(spec);
    let marks = mark_tasks(spec);
    if at < prelude.len() {
        assert(plan[at] == prelude[at]);
        if at < clear_plan(spec).len() {
            assert(prelude[at] == quiet(clear_plan(spec)[at]));
            lemma_clear_is_no_rule(spec, at);
        }
    } else if at < prelude.len() + rules.len() {
        assert(plan[at] == rules[at - prelude.len()]);
    } else {
        let rest = at - prelude.len() - rules.len();
        if rest < marks.len() {
            assert(plan[at] == marks[rest]);
        } else {
            assert(plan[at] == tproxy_tasks(spec)[rest - marks.len()]);
        }
    }
}

proof fn lemma_clear_is_no_rule(spec: RoutingSpec, at: int)
    requires
        0 <= at < clear_plan(spec).len(),
    ensures
        !(clear_plan(spec)[at] is UidRule),
{
}

proof fn lemma_cleared(spec: RoutingSpec, op: Op)
    requires
        ({
            ||| sweep_ops(spec).contains(op)
            ||| tunnel_clear_ops(spec).contains(op)
            ||| dhcp_ops(spec, false).contains(op)
            ||| chains_clear_ops(spec).contains(op)
            ||| tproxy_clear_ops(spec).contains(op)
            ||| protect_clear_ops(spec).contains(op)
        }),
    ensures
        clear_plan(spec).contains(op),
{
    broadcast use vstd::seq_lib::group_seq_properties;

}

/// The teardown sweeps the whole priority block by number, in each address family, whoever was
/// bypassed: rules that an earlier session left there go too.
pub proof fn whole_block_is_swept(spec: RoutingSpec, pref: nat, v6: bool)
    requires
        spec.rule_priority_start <= pref <= spec.rule_priority_end || pref
            == spec.rule_priority_start,
    ensures
        clear_plan(spec).contains(Op::RuleDel { v6, pref }),
{
    let k = 2 * (pref - spec.rule_priority_start) + (if v6 {
        1int
    } else {
        0
    });
    assert(k / 2 == pref - spec.rule_priority_start && (k % 2 == 1) == v6);
    assert(sweep_ops(spec)[k] == (Op::RuleDel { v6, pref }));
    lemma_cleared(spec, Op::RuleDel { v6, pref });
}

/// The teardown takes the tunnel's rule, the upstream table and the app's permission away from
/// every session.
pub proof fn tunnel_is_taken_down(spec: RoutingSpec, v6: bool)
    ensures
        clear_plan(spec).contains(Op::RuleDel { v6, pref: spec.app_tunnel_priority as nat }),
        clear_plan(spec).contains(Op::RouteFlush { v6, table: spec.upstream_table as nat }),
        clear_plan(spec).contains(Op::Protect { allow: false, uid: spec.app_uid as nat }),
{
    let ops = tunnel_clear_ops(spec);
    let at: int = if v6 {
        1
    } else {
        0
    };
    assert(ops[at] == (Op::RuleDel { v6, pref: spec.app_tunnel_priority as nat }));
    assert(ops[at + 2] == (Op::RouteFlush { v6, table: spec.upstream_table as nat }));
    assert(protect_clear_ops(spec)[0] == (Op::Protect { allow: false, uid: spec.app_uid as nat }));
    lemma_cleared(spec, ops[at]);
    lemma_cleared(spec, ops[at + 2]);
    lemma_cleared(spec, protect_clear_ops(spec)[0]);
}

/// The teardown takes away what only some sessions have: the DHCP workaround, the bypass chain,
/// which is unhooked, emptied and then deleted, and the transparent proxy's rule and table.
pub proof fn extras_are_taken_down(spec: RoutingSpec, v6: bool, tproxy: TproxySpec)
    ensures
        spec.dhcp_workaround_enabled ==> clear_plan(spec).contains(
            Op::DhcpRule { add: false, pref: spec.dhcp_workaround_priority as nat },
        ),
        spec.bypass_mark_chain@.len() > 0 ==> exists|at: int|
            #![trigger clear_plan(spec)[at]]
            0 <= at < clear_plan(spec).len() - 2 && clear_plan(spec)[at] == (Op::Hook {
                v6,
                add: false,
                chain: spec.bypass_mark_chain@,
            }) && clear_plan(spec)[at + 1] == (Op::ChainFlush { v6, chain: spec.bypass_mark_chain@ })
                && clear_plan(spec)[at + 2] == (Op::ChainDelete {
                v6,
                chain: spec.bypass_mark_chain@,
            }),
        spec.tproxy == Some(tproxy) ==> clear_plan(spec).contains(
            Op::RuleDel { v6: false, pref: tproxy.rule_priority as nat },
        ) && clear_plan(spec).contains(
            Op::RouteFlush { v6: false, table: tproxy.route_table as nat },
        ),
{
    if spec.dhcp_workaround_enabled {
        assert(dhcp_ops(spec, false)[0] == (Op::DhcpRule {
            add: false,
            pref: spec.dhcp_workaround_priority as nat,
        }));
        lemma_cleared(spec, dhcp_ops(spec, false)[0]);
    }
    if spec.bypass_mark_chain@.len() > 0 {
        let at = sweep_ops(spec).len() + 4 + dhcp_ops(spec, false).len() + (if v6 {
            3int
        } else {
            0
        });
        let chain = spec.bypass_mark_chain@;
        assert(clear_plan(spec)[at] == (Op::Hook { v6, add: false, chain }));
        assert(clear_plan(spec)[at + 1] == (Op::ChainFlush { v6, chain }));
        assert(clear_plan(spec)[at + 2] == (Op::ChainDelete { v6, chain }));
    }
    if spec.tproxy == Some(tproxy) {
        let ops = tproxy_clear_ops(spec);
        assert(ops[0] == (Op::RuleDel { v6: false, pref: tproxy.rule_priority as nat }));
        assert(ops[1] == (Op::RouteFlush { v6: false, table: tproxy.route_table as nat }));
        lemma_cleared(spec, ops[0]);
        lemma_cleared(spec, ops[1]);
    }
}

/// Whether an operation takes away something that is the session's own.
pub open spec fn is_own_removal(spec: RoutingSpec, op: Op) -> bool {
    match op {
        Op::RuleDel { v6, pref } => {
            ||| spec.rule_priority_start <= pref <= spec.rule_priority_end
            ||| pref == spec.rule_priority_start
            ||| pref == spec.app_tunnel_priority
            ||| !v6 && (spec.tproxy matches Some(tproxy) && pref == tproxy.rule_priority)
        },
        Op::RouteFlush { v6, table } => {
            ||| table == spec.upstream_table
            ||| !v6 && (spec.tproxy matches Some(tproxy) && table == tproxy.route_table)
        },
        Op::DhcpRule { add, pref } => !add && spec.dhcp_workaround_enabled && pref
            == spec.dhcp_workaround_priority,
        Op::Hook { add, chain, .. } => !add && chain == spec.bypass_mark_chain@ && chain.len() > 0,
        Op::ChainFlush { chain, .. } => chain == spec.bypass_mark_chain@ && chain.len() > 0,
        Op::ChainDelete { chain, .. } => chain == spec.bypass_mark_chain@ && chain.len() > 0,
        Op::Protect { allow, uid } => !allow && uid == spec.app_uid,
        _ => false,
    }
}

/// The teardown touches nothing but what is the session's own, and has no more commands than
/// there are things to take away.
pub proof fn teardown_touches_only_the_session(spec: RoutingSpec, at: int)
    ensures
        0 <= at < clear_plan(spec).len() ==> is_own_removal(spec, clear_plan(spec)[at]),
        clear_plan(spec).len() == 5 + 2 * (if spec.rule_priority_start
            <= spec.rule_priority_end {
            spec.rule_priority_end - spec.rule_priority_start + 1
        } else {
            1
        }) + (if spec.dhcp_workaround_enabled {
            1int
        } else {
            0
        }) + (if spec.bypass_mark_chain@.len() > 0 {
            6int
        } else {
            0
        }) + (if spec.tproxy is Some {
            2int
        } else {
            0
        }),
{
    let swept = sweep_ops(spec).len();
    let dhcp = dhcp_ops(spec, false).len();
    let chains = chains_clear_ops(spec).len();
    let tproxy = tproxy_clear_ops(spec).len();
    if 0 <= at < clear_plan(spec).len() {
        let op = clear_plan(spec)[at];
        if at < swept {
            assert(op == sweep_ops(spec)[at]);
        } else if at < swept + 4 {
            assert(op == tunnel_clear_ops(spec)[at - swept]);
        } else if at < swept + 4 + dhcp {
            assert(op == dhcp_ops(spec, false)[at - swept - 4]);
        } else if at < swept + 4 + dhcp + chains {
            assert(op == chains_clear_ops(spec)[at - swept - 4 - dhcp]);
        } else if at < swept + 4 + dhcp + chains + tproxy {
            assert(op == tproxy_clear_ops(spec)[at - swept - 4 - dhcp - chains]);
        } else {
            assert(op == protect_clear_ops(spec)[0]);
        }
    }
}

/// Every default route of the session is added to the upstream table, in the order in which the
/// session lists them, those of IPv4 first. An IPv4 route has to succeed, and its error names
/// the table and the route.
pub proof fn every_route_is_added(spec: RoutingSpec) -> (from: int)
    ensures
        from >= clear_plan(spec).len(),
        from + spec.ipv4_default_routes@.len() + spec.ipv6_default_routes@.len() <= apply_plan(
            spec,
        ).len(),
        forall|i: int|
            #![trigger spec.ipv4_default_routes@[i]]
            0 <= i < spec.ipv4_default_routes@.len() ==> {
                let task = apply_plan(spec)[from + i];
                let route = spec.ipv4_default_routes@[i]@;
                &&& task.op == (Op::RouteAdd {
                    v6: false,
                    table: spec.upstream_table as nat,
                    route,
                })
                &&& task.required == Some(
                    "ip route add table "@ + decimal(spec.upstream_table as nat) + " "@ + route
                        + " failed"@,
                )
            },
        forall|i: int|
            #![trigger spec.ipv6_default_routes@[i]]
            0 <= i < spec.ipv6_default_routes@.len() ==> {
                let task = apply_plan(spec)[from + spec.ipv4_default_routes@.len() + i];
                &&& task.op == (Op::RouteAdd {
                    v6: true,
                    table: spec.upstream_table as nat,
                    route: spec.ipv6_default_routes@[i]@,
                })
                &&& task.required is None
            },
{
    let from = clear_plan(spec).len() + 1 + dhcp_ops(spec, true).len();
    let v4 = v4_route_tasks(spec).len();
    assert forall|i: int|
        #![trigger spec.ipv4_default_routes@[i]]
        0 <= i < spec.ipv4_default_routes@.len() implies apply_plan(spec)[from + i]
        == v4_route_tasks(spec)[i] by {
        lemma_prelude_at(spec, from + i);
    }
    assert forall|i: int|
        #![trigger spec.ipv6_default_routes@[i]]
        0 <= i < spec.ipv6_default_routes@.len() implies apply_plan(spec)[from + v4 + i]
        == v6_route_tasks(spec)[i] by {
        lemma_prelude_at(spec, from + v4 + i);
    }
    from as int
}

/// The app may reach the network outside the tunnel before any route or rule is added, and the
/// DHCP workaround is installed exactly if the session has it.
pub proof fn app_is_protected_first(spec: RoutingSpec)
    ensures
        ({
            let cleared = clear_plan(spec).len() as int;
            let plan = apply_plan(spec);
            &&& plan.len() > cleared
            &&& plan[cleared].op == (Op::Protect { allow: true, uid: spec.app_uid as nat })
            &&& spec.dhcp_workaround_enabled ==> plan[cleared + 1].op == (Op::DhcpRule {
                add: true,
                pref: spec.dhcp_workaround_priority as nat,
            })
        }),
        forall|at: int|
            0 <= at < apply_plan(spec).len() ==> ((#[trigger] apply_plan(
                spec,
            )[at]).op matches Op::DhcpRule { add, pref } ==> spec.dhcp_workaround_enabled && pref
                == spec.dhcp_workaround_priority),
{
    let cleared = clear_plan(spec).len() as int;
    lemma_prelude_at(spec, cleared);
    if spec.dhcp_workaround_enabled {
        lemma_prelude_at(spec, cleared + 1);
    }
    assert forall|at: int| 0 <= at < apply_plan(spec).len() implies ((#[trigger] apply_plan(
        spec,
    )[at]).op matches Op::DhcpRule { add, pref } ==> spec.dhcp_workaround_enabled && pref
        == spec.dhcp_workaround_priority) by {
        lemma_task_kinds(spec, at);
        if at < cleared {
            teardown_touches_only_the_session(spec, at);
        } else if at < prelude_tasks(spec).len() {
            lemma_prelude_at(spec, at);
        } else if at >= prelude_tasks(spec).len() + uid_rule_tasks(spec).len() {
            lemma_late_tasks(spec, at);
        }
    }
}

proof fn lemma_late_tasks(spec: RoutingSpec, at: int)
    requires
        prelude_tasks(spec).len() + uid_rule_tasks(spec).len() <= at < apply_plan(spec).len(),
    ensures
        ({
            let op = apply_plan(spec)[at].op;
            let chain = spec.bypass_mark_chain@;
            ||| spec.bypass_mark_enabled && (op matches Op::ChainNew { chain: given, .. } && given
                == chain)
            ||| spec.bypass_mark_enabled && (op matches Op::ChainFlush { chain: given, .. } && given
                == chain)
            ||| spec.bypass_mark_enabled && (op matches Op::Hook { chain: given, add, .. } && given
                == chain && add)
            ||| spec.bypass_mark_enabled && (op matches Op::ChainMark { chain: given, uid, mark, .. }
                && given == chain && mark == spec.bypass_mark_fwmark && exists|i: int|
                0 <= i < spec.bypass_uids@.len() && #[trigger] spec.bypass_uids@[i] == uid)
            ||| spec.tproxy matches Some(tproxy) && op == (Op::LocalRoute {
                table: tproxy.route_table as nat,
            })
            ||| spec.tproxy matches Some(tproxy) && op == (Op::MarkRule {
                mark: tproxy.fwmark as nat,
                table: tproxy.route_table as nat,
                pref: tproxy.rule_priority as nat,
            })
        }),
{
    lemma_task_kinds(spec, at);
    let from = prelude_tasks(spec).len() + uid_rule_tasks(spec).len();
    let k = at - from;
    let marks = mark_tasks(spec);
    if k < marks.len() {
        let one = mark_chain_tasks(spec, false);
        let v6 = k >= one.len();
        let j = if v6 {
            k - one.len()
        } else {
            k
        };
        assert(marks[k] == mark_chain_tasks(spec, v6)[j]);
        if 2 <= j < 2 + spec.bypass_uids@.len() {
            assert(spec.bypass_uids@[j - 2] == spec.bypass_uids@[j - 2]);
            assert(mark_chain_tasks(spec, v6)[j].op is ChainMark);
        }
    }
}

/// Whether a task is the creation, the emptying, the hook or the mark of the session's chain.
pub open spec fn is_chain_op(spec: RoutingSpec, op: Op) -> bool {
    match op {
        Op::ChainNew { chain, .. } => chain == spec.bypass_mark_chain@,
        Op::ChainFlush { chain, .. } => chain == spec.bypass_mark_chain@,
        Op::Hook { chain, add, .. } => add && chain == spec.bypass_mark_chain@,
        Op::ChainMark { chain, uid, mark, .. } => {
            &&& chain == spec.bypass_mark_chain@
            &&& mark == spec.bypass_mark_fwmark
            &&& exists|i: int|
                0 <= i < spec.bypass_uids@.len() && #[trigger] spec.bypass_uids@[i] == uid
        },
        _ => false,
    }
}

/// An installation adds nothing but what the session asks for, and has no more commands than
/// that takes.
pub proof fn installation_adds_only_what_is_asked(spec: RoutingSpec, at: int)
    ensures
        clear_plan(spec).len() <= at < apply_plan(spec).len() ==> {
            let op = apply_plan(spec)[at].op;
            ||| op == (Op::Protect { allow: true, uid: spec.app_uid as nat })
            ||| op == (Op::DhcpRule { add: true, pref: spec.dhcp_workaround_priority as nat })
                && spec.dhcp_workaround_enabled
            ||| op matches Op::RouteAdd { v6, table, route } && table == spec.upstream_table
                && exists|i: int|
                #![trigger spec.ipv4_default_routes@[i]]
                #![trigger spec.ipv6_default_routes@[i]]
                if v6 {
                    0 <= i < spec.ipv6_default_routes@.len() && spec.ipv6_default_routes@[i]@
                        == route
                } else {
                    0 <= i < spec.ipv4_default_routes@.len() && spec.ipv4_default_routes@[i]@
                        == route
                }
            ||| op matches Op::UidRule { uid_start, pref, .. } && is_steered(spec, uid_start, pref)
            ||| spec.bypass_mark_enabled && is_chain_op(spec, op)
            ||| spec.tproxy matches Some(tproxy) && (op == (Op::LocalRoute {
                table: tproxy.route_table as nat,
            }) || op == (Op::MarkRule {
                mark: tproxy.fwmark as nat,
                table: tproxy.route_table as nat,
                pref: tproxy.rule_priority as nat,
            }))
        },
        bypass_fits(spec) ==> apply_plan(spec).len() == clear_plan(spec).len() + 3
            + spec.ipv4_default_routes@.len() + spec.ipv6_default_routes@.len() + 2
            * spec.bypass_uids@.len() + (if spec.dhcp_workaround_enabled {
            1int
        } else {
            0
        }) + (if spec.bypass_mark_enabled {
            2 * (spec.bypass_uids@.len() + 3)
        } else {
            0
        }) + (if spec.tproxy is Some {
            2int
        } else {
            0
        }),
{
    if clear_plan(spec).len() <= at < apply_plan(spec).len() {
        lemma_task_kinds(spec, at);
        let prelude = prelude_tasks(spec).len();
        let rules = uid_rule_tasks(spec).len();
        if at < prelude {
            lemma_prelude_at(spec, at);
            let from = clear_plan(spec).len() + 1 + dhcp_ops(spec, true).len();
            let v4 = v4_route_tasks(spec).len();
            if from <= at < from + v4 {
                let i = at - from;
                assert(prelude_tasks(spec)[at] == v4_route_tasks(spec)[i]);
                assert(spec.ipv4_default_routes@[i]@ == spec.ipv4_default_routes@[at - from]@);
            } else if from + v4 <= at {
                let i = at - from - v4;
                assert(prelude_tasks(spec)[at] == v6_route_tasks(spec)[i]);
                assert(spec.ipv6_default_routes@[i]@ == spec.ipv6_default_routes@[i]@);
            }
        } else if at < prelude + rules {
            only_bypassed_users_have_rules(spec, at);
        } else {
            lemma_late_tasks(spec, at);
        }
    }
}

/// A session that marks bypassed packets marks those of every bypassed user in each address
/// family: the chain is created and emptied first, then each user is marked in turn, and the
/// chain is hooked in last.
pub proof fn every_bypassed_user_is_marked(spec: RoutingSpec, v6: bool) -> (from: int)
    requires
        bypass_fits(spec),
        spec.bypass_mark_enabled,
    ensures
        clear_plan(spec).len() <= from,
        from + 3 + spec.bypass_uids@.len() <= apply_plan(spec).len(),
        apply_plan(spec)[from].op == (Op::ChainNew { v6, chain: spec.bypass_mark_chain@ }),
        apply_plan(spec)[from + 1].op == (Op::ChainFlush { v6, chain: spec.bypass_mark_chain@ }),
        forall|i: int|
            #![trigger spec.bypass_uids@[i]]
            0 <= i < spec.bypass_uids@.len() ==> apply_plan(spec)[from + 2 + i].op
                == (Op::ChainMark {
                v6,
                chain: spec.bypass_mark_chain@,
                uid: spec.bypass_uids@[i] as nat,
                mark: spec.bypass_mark_fwmark as nat,
            }),
        apply_plan(spec)[from + 2 + spec.bypass_uids@.len()].op == (Op::Hook {
            v6,
            add: true,
            chain: spec.bypass_mark_chain@,
        }),
{
    let n = spec.bypass_uids@.len();
    let offset = if v6 {
        n + 3
    } else {
        0
    };
    let from: int = (prelude_tasks(spec).len() + uid_rule_tasks(spec).len() + offset) as int;
    assert forall|k: int| 0 <= k < n + 3 implies #[trigger] apply_plan(spec)[from + k]
        == mark_chain_tasks(spec, v6)[k] by {
        lemma_mark_at(spec, offset + k);
    }
    assert(apply_plan(spec)[from + 0] == mark_chain_tasks(spec, v6)[0]);
    assert(apply_plan(spec)[from + 1] == mark_chain_tasks(spec, v6)[1]);
    assert forall|i: int|
        #![trigger spec.bypass_uids@[i]]
        0 <= i < n implies apply_plan(spec)[from + 2 + i].op == (Op::ChainMark {
        v6,
        chain: spec.bypass_mark_chain@,
        uid: spec.bypass_uids@[i] as nat,
        mark: spec.bypass_mark_fwmark as nat,
    }) by {
        assert(apply_plan(spec)[from + (2 + i)] == mark_chain_tasks(spec, v6)[2 + i]);
    }
    assert(apply_plan(spec)[from + (2 + n)] == mark_chain_tasks(spec, v6)[2 + n as int]);
    from
}

/// The transparent proxy's packets are delivered locally and its mark is steered to its table,
/// at the end of the installation. The local route has to succeed.
pub proof fn proxy_is_installed_last(spec: RoutingSpec, tproxy: TproxySpec)
    requires
        bypass_fits(spec),
        spec.tproxy == Some(tproxy),
    ensures
        ({
            let plan = apply_plan(spec);
            let end = plan.len() as int;
            &&& end >= 2
            &&& plan[end - 2] == (Task {
                op: Op::LocalRoute { table: tproxy.route_table as nat },
                required: Some("ip route add local default dev lo failed"@),
            })
            &&& plan[end - 1] == (Task {
                op: Op::MarkRule {
                    mark: tproxy.fwmark as nat,
                    table: tproxy.route_table as nat,
                    pref: tproxy.rule_priority as nat,
                },
                required: None,
            })
        }),
{
    let end = apply_plan(spec).len() as int;
    lemma_task_kinds(spec, end - 2);
    lemma_task_kinds(spec, end - 1);
}

/// The priority block has room for all bypassed users exactly if the last of their priorities,
/// counted from the one behind the first, is in it.
pub proof fn room_is_counted_by_priority(spec: RoutingSpec)
    ensures
        bypass_fits(spec) <==> (spec.bypass_uids@.len() == 0 || spec.rule_priority_start
            + spec.bypass_uids@.len() <= spec.rule_priority_end),
{
}

/// Whether an argument is a number in decimal.
pub open spec fn reads_as(arg: Seq<char>, n: nat) -> bool {
    unsigned(arg, n) == Some(n)
}

/// Whether an argument is a mark in hexadecimal.
pub open spec fn reads_as_mark(arg: Seq<char>, mark: nat) -> bool {
    arg.len() > 2 && arg[0] == '0' && arg[1] == 'x' && hex_number(arg.skip(2)) == Some(mark)
}

/// Whether the argument at a place is this word.
pub open spec fn says(args: Seq<Seq<char>>, at: int, word: Seq<char>) -> bool {
    0 <= at < args.len() && args[at] == word
}

/// Whether the arguments begin with those that choose the mangle table and wait for its lock.
pub open spec fn is_mangle(args: Seq<Seq<char>>) -> bool {
    says(args, 0, "-w"@) && says(args, 1, "-t"@) && says(args, 2, "mangle"@)
}

/// Every command carries what its operation is about: numbers read back from its arguments,
/// chains and the words of routes stand in them as they are, and the address family is chosen
/// by the first argument of the `ip` tool or by the packet filter tool.
pub proof fn commands_carry_their_operands(op: Op)
    ensures
        ({
            let call = op.call();
            let args = call.args;
            match op {
                Op::RuleDel { v6, pref } => {
                    &&& call.program == "ip"@
                    &&& v6 == says(args, 0, "-6"@)
                    &&& args.len() == (if v6 { 5int } else { 4 })
                    &&& args[args.len() - 4] == "rule"@
                    &&& args[args.len() - 3] == "del"@
                    &&& args[args.len() - 2] == "pref"@
                    &&& reads_as(args.last(), pref)
                },
                Op::UidRule { v6, pref, uid_start, uid_end, table } => {
                    &&& call.program == "ip"@
                    &&& v6 == says(args, 0, "-6"@)
                    &&& args.len() == (if v6 { 9int } else { 8 })
                    &&& args[args.len() - 8] == "rule"@
                    &&& args[args.len() - 7] == "add"@
                    &&& args[args.len() - 6] == "pref"@
                    &&& args[args.len() - 4] == "uidrange"@
                    &&& args[args.len() - 2] == "lookup"@
                    &&& reads_as(args[args.len() - 5], pref)
                    &&& fields(args[args.len() - 3], '-').len() == 2
                    &&& reads_as(fields(args[args.len() - 3], '-')[0], uid_start)
                    &&& reads_as(fields(args[args.len() - 3], '-')[1], uid_end)
                    &&& reads_as(args.last(), table)
                },
                Op::DhcpRule { add, pref } => {
                    &&& call.program == "ip"@
                    &&& args.len() == 10
                    &&& says(args, 0, "rule"@)
                    &&& says(args, 1, if add { "add"@ } else { "del"@ })
                    &&& says(args, 2, "iif"@) && says(args, 3, "lo"@)
                    &&& says(args, 4, "uidrange"@) && says(args, 5, "0-0"@)
                    &&& says(args, 6, "lookup"@) && says(args, 7, "97"@)
                    &&& says(args, 8, "priority"@)
                    &&& reads_as(args.last(), pref)
                },
                Op::RouteAdd { v6, table, route } => {
                    let head: int = if v6 { 5 } else { 4 };
                    &&& call.program == "ip"@
                    &&& v6 == says(args, 0, "-6"@)
                    &&& says(args, head - 4, "route"@)
                    &&& says(args, head - 3, "add"@)
                    &&& says(args, head - 2, "table"@)
                    &&& args.len() == head + words(route).len()
                    &&& reads_as(args[head - 1], table)
                    &&& args.skip(head) == words(route)
                },
                Op::RouteFlush { v6, table } => {
                    &&& call.program == "ip"@
                    &&& v6 == says(args, 0, "-6"@)
                    &&& args.len() == (if v6 { 5int } else { 4 })
                    &&& args[args.len() - 4] == "route"@
                    &&& args[args.len() - 3] == "flush"@
                    &&& args[args.len() - 2] == "table"@
                    &&& reads_as(args.last(), table)
                },
                Op::Protect { allow, uid } => {
                    &&& call.program == "ndc"@
                    &&& args.len() == 4
                    &&& says(args, 0, "network"@) && says(args, 1, "protect"@)
                    &&& says(args, 2, if allow { "allow"@ } else { "deny"@ })
                    &&& reads_as(args.last(), uid)
                },
                Op::ChainNew { v6, chain } => {
                    &&& call.program == (if v6 { "ip6tables"@ } else { "iptables"@ })
                    &&& is_mangle(args) && args.len() == 5
                    &&& says(args, 3, "-N"@)
                    &&& args.last() == chain
                },
                Op::ChainFlush { v6, chain } => {
                    &&& call.program == (if v6 { "ip6tables"@ } else { "iptables"@ })
                    &&& is_mangle(args) && args.len() == 5
                    &&& says(args, 3, "-F"@)
                    &&& args.last() == chain
                },
                Op::ChainDelete { v6, chain } => {
                    &&& call.program == (if v6 { "ip6tables"@ } else { "iptables"@ })
                    &&& is_mangle(args) && args.len() == 5
                    &&& says(args, 3, "-X"@)
                    &&& args.last() == chain
                },
                Op::ChainMark { v6, chain, uid, mark } => {
                    &&& call.program == (if v6 { "ip6tables"@ } else { "iptables"@ })
                    &&& is_mangle(args) && args.len() == 13
                    &&& says(args, 3, "-A"@)
                    &&& args[4] == chain
                    &&& says(args, 5, "-m"@) && says(args, 6, "owner"@)
                    &&& says(args, 7, "--uid-owner"@)
                    &&& reads_as(args[8], uid)
                    &&& says(args, 9, "-j"@) && says(args, 10, "MARK"@)
                    &&& says(args, 11, "--set-mark"@)
                    &&& reads_as_mark(args.last(), mark)
                },
                Op::Hook { v6, add, chain } => {
                    &&& call.program == (if v6 { "ip6tables"@ } else { "iptables"@ })
                    &&& is_mangle(args) && args.len() == 7
                    &&& says(args, 3, if add { "-A"@ } else { "-D"@ })
                    &&& says(args, 4, "OUTPUT"@) && says(args, 5, "-j"@)
                    &&& args.last() == chain
                },
                Op::LocalRoute { table } => {
                    &&& call.program == "ip"@
                    &&& args.len() == 8
                    &&& says(args, 0, "route"@) && says(args, 1, "add"@)
                    &&& says(args, 2, "local"@) && says(args, 3, "default"@)
                    &&& says(args, 4, "dev"@) && says(args, 5, "lo"@)
                    &&& says(args, 6, "table"@)
                    &&& reads_as(args.last(), table)
                },
                Op::MarkRule { mark, table, pref } => {
                    &&& call.program == "ip"@
                    &&& args.len() == 8
                    &&& says(args, 0, "rule"@) && says(args, 1, "add"@)
                    &&& says(args, 2, "fwmark"@)
                    &&& reads_as_mark(args[3], mark)
                    &&& says(args, 4, "lookup"@)
                    &&& reads_as(args[5], table)
                    &&& says(args, 6, "pref"@)
                    &&& reads_as(args.last(), pref)
                },
                Op::ChainList { v6, chain } => {
                    &&& call.program == (if v6 { "ip6tables"@ } else { "iptables"@ })
                    &&& is_mangle(args) && args.len() == 5
                    &&& says(args, 3, "-nvxL"@)
                    &&& args.last() == chain
                },
            }
        }),
{
    reveal_strlit("-6");
    reveal_strlit("rule");
    reveal_strlit("route");
    reveal_strlit("0x");
    reveal_strlit("-");
    assert("rule"@.len() != "-6"@.len() && "route"@.len() != "-6"@.len());
    match op {
        Op::RuleDel { v6, pref } => {
            decimal_reads_back(pref, pref);
        },
        Op::UidRule { v6, pref, uid_start, uid_end, table } => {
            decimal_reads_back(pref, pref);
            decimal_reads_back(uid_start, uid_start);
            decimal_reads_back(uid_end, uid_end);
            decimal_reads_back(table, table);
            lemma_no_hyphen(uid_start);
            lemma_no_hyphen(uid_end);
            let range = op.call().args[op.call().args.len() - 3];
            assert(range =~= decimal(uid_start) + seq!['-'] + decimal(uid_end));
            first_field_ends_at_the_separator(decimal(uid_start), '-', decimal(uid_end));
            first_field_ends_at_the_separator(decimal(uid_end), '-', seq![]);
        },
        Op::DhcpRule { add, pref } => {
            decimal_reads_back(pref, pref);
        },
        Op::RouteAdd { v6, table, route } => {
            decimal_reads_back(table, table);
            let head: int = if v6 {
                5
            } else {
                4
            };
            assert(op.call().args.skip(head) =~= words(route));
        },
        Op::RouteFlush { v6, table } => {
            decimal_reads_back(table, table);
        },
        Op::Protect { allow, uid } => {
            decimal_reads_back(uid, uid);
        },
        Op::ChainMark { v6, chain, uid, mark } => {
            decimal_reads_back(uid, uid);
            lemma_mark_text(mark);
        },
        Op::LocalRoute { table } => {
            decimal_reads_back(table, table);
        },
        Op::MarkRule { mark, table, pref } => {
            lemma_mark_text(mark);
            decimal_reads_back(table, table);
            decimal_reads_back(pref, pref);
        },
        _ => {},
    }
}

proof fn lemma_no_hyphen(n: nat)
    ensures
        !decimal(n).contains('-'),
{
    decimal_reads_back(n, n);
    let s = decimal(n);
    assert(crate::text::unsigned_digits(s).len() > 0);
    if s.contains('-') {
        let k = choose|k: int| 0 <= k < s.len() && s[k] == '-';
        crate::text::decimal_is_digits(n, k);
    }
}

proof fn lemma_mark_text(mark: nat)
    ensures
        reads_as_mark(crate::routing::mark_text(mark), mark),
{
    reveal_strlit("0x");
    hexadecimal_reads_back(mark);
    let text = crate::routing::mark_text(mark);
    assert(text.skip(2) =~= crate::text::hexadecimal(mark));
}

/// Every chain is listed with the tool of each address family, and nothing else is.
pub proof fn every_chain_is_listed(chains: Seq<String>, i: int, v6: bool) -> (at: int)
    requires
        0 <= i < chains.len(),
    ensures
        0 <= at < counter_plan(chains).len(),
        counter_plan(chains)[at] == (Op::ChainList { v6, chain: chains[i]@ }),
        counter_plan(chains).len() == 2 * chains.len(),
        at == (if v6 {
            chains.len() + i
        } else {
            i
        }),
{
    if v6 {
        chains.len() + i
    } else {
        i
    }
}

/// The bytes of several listings are the sum of those of each, in any grouping: a listing that
/// failed counts nothing, and any other counts what it shows.
pub proof fn listings_add_up(a: Seq<Option<Vec<u8>>>, b: Seq<Option<Vec<u8>>>)
    ensures
        total_bytes(a + b) == total_bytes(a) + total_bytes(b),
    decreases b.len(),
{
    if b.len() == 0 {
        assert(a + b =~= a);
    } else {
        listings_add_up(a, b.drop_last());
        assert((a + b).drop_last() =~= a + b.drop_last());
    }
}

/// What one listing counts.
pub proof fn one_listing_counts(stdout: Vec<u8>)
    ensures
        total_bytes(seq![Some(stdout)]) == listing_bytes(utf8_lossy(stdout@)),
        total_bytes(seq![None::<Vec<u8>>]) == 0,
{
    let one: Seq<Option<Vec<u8>>> = seq![Some(stdout)];
    let none: Seq<Option<Vec<u8>>> = seq![None];
    assert(one.drop_last() =~= seq![]);
    assert(none.drop_last() =~= seq![]);
    assert(total_bytes(one.drop_last()) == 0);
    assert(total_bytes(none.drop_last()) == 0);
}

/// When every chain was listed, the sum is what reading the counters comes to; until then the
/// next listing is made.
pub proof fn counting_ends_with_the_last_chain(chains: Seq<String>, outputs: Seq<Option<Vec<u8>>>)
    ensures
        counter_step(chains, outputs) is Run <==> outputs.len() < 2 * chains.len(),
        outputs.len() >= 2 * chains.len() ==> counter_step(chains, outputs)
            == CounterStepView::Total(total_bytes(outputs)),
{
}

proof fn lemma_trailing_space(a: Seq<char>)
    requires
        a.len() > 0,
        is_space(a.last()),
    ensures
        words(a.drop_last()) == words(a),
{
    words_are_separated(a.drop_last(), a.last(), seq![]);
    assert(a.drop_last() + seq![a.last()] + Seq::<char>::empty() =~= a);
    one_word(seq![]);
    assert(words(a.drop_last()) + words(seq![]) =~= words(a.drop_last()));
}

/// The bytes of a listing are those of its lines together.
pub proof fn lines_of_a_listing_add_up(line: Seq<char>, rest: Seq<char>)
    requires
        !line.contains('\n'),
    ensures
        listing_bytes(line + seq!['\n'] + rest) == line_bytes(line) + listing_bytes(rest),
        listing_bytes(seq![]) == 0,
        listing_bytes(line) == line_bytes(line),
{
    lines_end_at_newlines(line, '\n', '\r', rest);
    let list = lines(line + seq!['\n'] + rest, '\n', '\r');
    assert(list.drop_first() =~= lines(rest, '\n', '\r'));
    if line.len() > 0 && line.last() == '\r' {
        lemma_trailing_space(line);
        assert(line_bytes(line.drop_last()) == line_bytes(line));
    }
    assert(lines(seq![], '\n', '\r') =~= seq![]);
    one_word(seq![]);
    if line.len() == 0 {
        assert(line =~= seq![]);
    } else {
        let one = lines(line, '\n', '\r');
        assert(one.drop_first() =~= seq![]);
        assert(lines_bytes(one.drop_first()) == 0);
    }
}

/// Three columns with single spaces between them, and what follows them.
pub open spec fn row(
    packets: Seq<char>,
    bytes: Seq<char>,
    target: Seq<char>,
    tail: Seq<char>,
) -> Seq<char> {
    packets + seq![' '] + (bytes + seq![' '] + (target + seq![' '] + tail))
}

/// Whether a text is one column of a listing.
pub open spec fn is_column(s: Seq<char>) -> bool {
    s.len() > 0 && forall|i: int| 0 <= i < s.len() ==> !is_space(#[trigger] s[i])
}

/// A rule that marks packets counts the bytes in its second column, and a rule with another
/// target counts nothing, whatever follows on its line.
pub proof fn marking_rules_count_their_bytes(
    packets: Seq<char>,
    bytes: nat,
    target: Seq<char>,
    tail: Seq<char>,
)
    requires
        is_column(packets),
        is_column(target),
        bytes <= u64::MAX,
    ensures
        line_bytes(row(packets, decimal(bytes), target, tail)) == (if target == "MARK"@ {
            bytes
        } else {
            0
        }),
{
    lemma_row(packets, decimal(bytes), target, tail);
    decimal_reads_back(bytes, u64::MAX as nat);
}

/// A rule whose second column is no number of 64 bits counts nothing.
pub proof fn unreadable_rules_count_nothing(
    packets: Seq<char>,
    bytes: Seq<char>,
    target: Seq<char>,
    tail: Seq<char>,
)
    requires
        is_column(packets),
        is_column(bytes),
        is_column(target),
        unsigned(bytes, u64::MAX as nat) is None,
    ensures
        line_bytes(row(packets, bytes, target, tail)) == 0,
{
    lemma_three_columns(packets, bytes, target, tail);
}

/// A line of fewer than three columns counts nothing.
pub proof fn short_lines_count_nothing(line: Seq<char>)
    requires
        words(line).len() < 3,
    ensures
        line_bytes(line) == 0,
{
}

/// White space in front of a line changes nothing about what it counts.
pub proof fn indentation_does_not_count(space: char, line: Seq<char>)
    requires
        is_space(space),
    ensures
        line_bytes(seq![space] + line) == line_bytes(line),
{
    words_are_separated(seq![], space, line);
    one_word(seq![]);
    assert(Seq::<char>::empty() + seq![space] + line =~= seq![space] + line);
    assert(words(seq![]) + words(line) =~= words(line));
}

proof fn lemma_three_columns(
    packets: Seq<char>,
    bytes: Seq<char>,
    target: Seq<char>,
    tail: Seq<char>,
)
    requires
        is_column(packets),
        is_column(bytes),
        is_column(target),
    ensures
        words(row(packets, bytes, target, tail)) == seq![packets, bytes, target] + words(tail),
{
    let rest = target + seq![' '] + tail;
    let more = bytes + seq![' '] + rest;
    words_are_separated(target, ' ', tail);
    words_are_separated(bytes, ' ', rest);
    words_are_separated(packets, ' ', more);
    one_word(packets);
    one_word(bytes);
    one_word(target);
    assert(words(row(packets, bytes, target, tail)) =~= seq![packets, bytes, target] + words(tail));
}

proof fn lemma_row(packets: Seq<char>, bytes: Seq<char>, target: Seq<char>, tail: Seq<char>)
    requires
        is_column(packets),
        is_column(target),
        exists|n: nat| bytes == decimal(n),
    ensures
        words(row(packets, bytes, target, tail)) == seq![packets, bytes, target] + words(tail),
{
    let n = choose|n: nat| bytes == decimal(n);
    crate::text::decimal_is_digits(n, 0);
    assert forall|i: int| 0 <= i < bytes.len() implies !is_space(#[trigger] bytes[i]) by {
        crate::text::decimal_is_digits(n, i);
    }
    lemma_three_columns(packets, bytes, target, tail);
}

/// The commands of a plan.
pub open spec fn calls(plan: Seq<Task>, from: int, to: int) -> Seq<Call> {
    Seq::new((to - from) as nat, |i: int| plan[from + i].op.call())
}

proof fn lemma_executed(spec: RoutingSpec, exits: spec_fn(nat) -> bool, done: nat, to: nat)
    requires
        done <= to <= apply_plan(spec).len(),
        forall|i: nat| #[trigger] breaks(spec, exits, i) ==> i + 1 >= to,
        to < apply_plan(spec).len() ==> to > 0 && breaks(spec, exits, (to - 1) as nat),
    ensures
        executed(spec, exits, done) == calls(apply_plan(spec), done as int, to as int),
    decreases to - done,
{
    let plan = apply_plan(spec);
    if done > 0 {
        let last = (done - 1) as nat;
        assert(breaks(spec, exits, last) ==> last + 1 >= to);
        assert(breaks(spec, exits, last) == (plan[last as int].required is Some && !exits(last)));
    }
    if done < to {
        lemma_executed(spec, exits, done + 1, to);
        assert(calls(plan, done as int, to as int) =~= seq![plan[done as int].op.call()] + calls(
            plan,
            done as int + 1,
            to as int,
        ));
    } else {
        assert(calls(plan, done as int, to as int) =~= seq![]);
        assert(executed(spec, exits, done) =~= seq![]);
    }
}

/// An installation executes its plan command by command: all of it where nothing breaks, and
/// else up to the first command that had to succeed and did not.
pub proof fn installations_execute_their_plan(
    spec: RoutingSpec,
    exits: spec_fn(nat) -> bool,
    failed: nat,
)
    ensures
        (forall|i: nat| !breaks(spec, exits, i)) ==> executed(spec, exits, 0) == calls(
            apply_plan(spec),
            0,
            apply_plan(spec).len() as int,
        ),
        breaks(spec, exits, failed) && (forall|j: nat| j < failed ==> !breaks(spec, exits, j))
            ==> executed(spec, exits, 0) == calls(apply_plan(spec), 0, failed as int + 1),
{
    if forall|i: nat| !breaks(spec, exits, i) {
        lemma_executed(spec, exits, 0, apply_plan(spec).len());
    }
    if breaks(spec, exits, failed) && (forall|j: nat| j < failed ==> !breaks(spec, exits, j)) {
        assert forall|i: nat| #[trigger] breaks(spec, exits, i) implies i + 1 >= failed + 1 by {
            if i < failed {
                assert(!breaks(spec, exits, i));
            }
        }
        lemma_executed(spec, exits, 0, failed + 1);
    }
}

/// Whether the priority of a bypassed user is looked at and has more than 32 bits: users are
/// looked at up to the first one beyond the block.
pub open spec fn overflows(spec: RoutingSpec, i: int) -> bool {
    &&& 0 <= i < spec.bypass_uids@.len()
    &&& i == 0 || spec.rule_priority_start + i <= spec.rule_priority_end
    &&& spec.rule_priority_start + 1 + i > u32::MAX
}

/// The priorities of a session can be numbered exactly if none of those that are looked at has
/// more than 32 bits.
pub proof fn priorities_have_32_bits(spec: RoutingSpec)
    ensures
        priorities_representable(spec) <==> forall|i: int| !overflows(spec, i),
{
    if spec.bypass_uids@.len() > 0 && !priorities_representable(spec) {
        assert(overflows(spec, u32::MAX - spec.rule_priority_start));
    }
}

/// The error of a block that is too small names its first and its last priority.
pub proof fn block_errors_name_the_block(spec: RoutingSpec)
    ensures
        block_error(spec) == "more bypass uids than the "@ + decimal(
            spec.rule_priority_start as nat,
        ) + ".."@ + decimal(spec.rule_priority_end as nat) + " priority block holds"@,
{
}

} // verus!
