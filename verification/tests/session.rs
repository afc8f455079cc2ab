use wingsvd::children::{ExecOutcome, PathFacts, SpawnFacts};
use wingsvd::rootd::{
    ChildKind, ClientCommand, DaemonEnvelope, Frame, HelloCommand, HelloReply, Payload,
    RoutingSpec, SessionState, SpawnChildCommand, TproxySpec,
};
use wingsvd::session::{
    dispatch, identify, is_numberable, reply, Action, Peer, Session, Work, MIN_SUPPORTED,
    PROTOCOL_VERSION,
};

fn tunnel_spec(chains: &[&str]) -> RoutingSpec {
    RoutingSpec {
        tunnel_name: "tun0".to_string(),
        app_uid: 10123,
        upstream_table: 1500,
        ipv4_default_routes: vec!["default dev wlan0".to_string()],
        ipv6_default_routes: vec![],
        rule_priority_start: 10,
        rule_priority_end: 10,
        app_tunnel_priority: 9,
        bypass_uids: vec![],
        dhcp_workaround_enabled: false,
        dhcp_workaround_priority: 0,
        bypass_mark_enabled: false,
        bypass_mark_chain: String::new(),
        bypass_mark_fwmark: 0,
        tproxy: if chains.is_empty() {
            None
        } else {
            Some(TproxySpec {
                route_table: 2500,
                rule_priority: 88,
                fwmark: 1,
                mark_chains: chains.iter().map(|chain| chain.to_string()).collect(),
            })
        },
    }
}

fn library_path() -> PathFacts {
    PathFacts {
        is_file: true,
        exists: true,
        resolved: Some(b"/data/app/~~x==/wings.v-1==/lib/arm64/liby.so".to_vec()),
    }
}

fn spawn_facts() -> SpawnFacts {
    SpawnFacts {
        binary: library_path(),
        classpath: library_path(),
        lib_dir: library_path(),
        has_app_process64: false,
    }
}

fn spawn_request() -> SpawnChildCommand {
    SpawnChildCommand {
        kind: 3,
        known_kind: ChildKind::Vkturn,
        binary_path: "/data/app/~~x==/wings.v-1==/lib/arm64/liby.so".to_string(),
        args: vec![],
        working_dir: String::new(),
        classpath: String::new(),
        lib_dir: String::new(),
    }
}

fn is_routing_tool(program: &str) -> bool {
    ["ip", "iptables", "ip6tables", "ndc"].contains(&program)
}

/// Works on a request as a daemon would on a machine where every command that holds `failing`
/// fails, every listing counts 100 bytes, and programs run as process 77.
fn work_on(
    session: &mut Session,
    command: Option<ClientCommand>,
    failing: &str,
    dead: &[u64],
) -> (usize, Result<Payload, String>) {
    let mut ran = 0;
    let mut work = Work::Begin(command);
    loop {
        assert!(is_numberable(session, &work));
        work = match dispatch(session, work, "1.2.3") {
            Action::Finish(outcome) => return (ran, outcome),
            Action::Apply { command, spec, done } => {
                ran += 1;
                assert!(is_routing_tool(&command.program));
                let line = command.args.join(" ");
                let last_ok = failing.is_empty() || !line.contains(failing);
                Work::Apply { spec, done: done + 1, last_ok }
            }
            Action::Clear { command, cleared } => {
                ran += 1;
                assert!(is_routing_tool(&command.program));
                Work::Clear { cleared: cleared + 1 }
            }
            Action::Kill { ids } => {
                ran += ids.len();
                Work::Killed
            }
            Action::List { command, mut outputs, for_state } => {
                ran += 1;
                assert!(is_routing_tool(&command.program));
                outputs.push(Some(b"1 100 MARK".to_vec()));
                Work::Count { outputs, for_state }
            }
            Action::Poll { bytes, ids } => Work::Polled {
                bytes,
                alive: ids.into_iter().filter(|id| !dead.contains(id)).collect(),
            },
            Action::Inspect { request } => Work::Spawn {
                request,
                facts: spawn_facts(),
                outcome: ExecOutcome::NotYet,
            },
            Action::Exec { launch, request, facts } => {
                ran += 1;
                assert_eq!(launch.program, "/data/app/~~x==/wings.v-1==/lib/arm64/liby.so");
                Work::Spawn { request, facts, outcome: ExecOutcome::Started(77) }
            }
            Action::ReadNetDev => Work::NetDev(if failing.is_empty() {
                Ok("table".to_string())
            } else {
                Err("denied".to_string())
            }),
            Action::CounterOverflow => panic!("the counters overflow"),
        };
    }
}

fn state_of(session: &mut Session, dead: &[u64]) -> SessionState {
    match work_on(session, Some(ClientCommand::SessionState), "", dead).1 {
        Ok(Payload::SessionState(state)) => state,
        _ => panic!("no state"),
    }
}

fn applied(session: &mut Session, chains: &[&str]) {
    let command = ClientCommand::ApplyRouting(Some(tunnel_spec(chains)));
    assert_eq!(work_on(session, Some(command), "", &[]).1, Ok(Payload::Ack));
}

#[test]
fn peers_are_identified() {
    assert_eq!(identify(10123, Some(10123)), Peer::App);
    assert_eq!(identify(0, Some(10123)), Peer::Root);
    assert_eq!(identify(10124, Some(10123)), Peer::Stranger);
    assert_eq!(identify(10123, None), Peer::Stranger);
}

#[test]
fn new_session_shows_nothing() {
    let mut session = Session::new();
    assert_eq!(
        state_of(&mut session, &[]),
        SessionState {
            routing_active: false,
            orphaned: false,
            tunnel_name: String::new(),
            children: vec![],
            app_connected: false,
            tproxy_mark_bytes: 0,
        }
    );
}

#[test]
fn hello_is_answered_whatever_the_version() {
    let mut session = Session::new();
    let hello = HelloCommand { app_version: "9".to_string(), protocol_version: 99 };
    let (ran, outcome) = work_on(&mut session, Some(ClientCommand::Hello(hello)), "", &[]);
    assert_eq!(ran, 0);
    assert_eq!(
        outcome,
        Ok(Payload::Hello(HelloReply {
            protocol_version: PROTOCOL_VERSION,
            min_supported: MIN_SUPPORTED,
            module_version: "1.2.3".to_string(),
            caps: vec![
                "routing".to_string(),
                "children".to_string(),
                "counters".to_string(),
                "netdev".to_string(),
            ],
        }))
    );
    assert_eq!((PROTOCOL_VERSION, MIN_SUPPORTED), (2, 1));
}

#[test]
fn incomplete_requests_are_errors() {
    let mut session = Session::new();
    assert_eq!(work_on(&mut session, None, "", &[]).1, Err("empty command".to_string()));
    assert_eq!(
        work_on(&mut session, Some(ClientCommand::ApplyRouting(None)), "", &[]).1,
        Err("apply_routing without a spec".to_string())
    );
}

#[test]
fn installed_session_is_shown() {
    let mut session = Session::new();
    applied(&mut session, &[]);
    let state = state_of(&mut session, &[]);
    assert!(state.routing_active && !state.orphaned);
    assert_eq!(state.tunnel_name, "tun0");
}

#[test]
fn failed_installation_leaves_the_session() {
    let mut session = Session::new();
    let command = ClientCommand::ApplyRouting(Some(tunnel_spec(&[])));
    let (ran, outcome) = work_on(&mut session, Some(command), "route add", &[]);
    assert_eq!(
        outcome,
        Err("ip route add table 1500 default dev wlan0 failed".to_string())
    );
    assert_eq!(ran, 9);
    assert!(!state_of(&mut session, &[]).routing_active);

    applied(&mut session, &[]);
    let mut other = tunnel_spec(&[]);
    other.tunnel_name = "tun9".to_string();
    let command = ClientCommand::ApplyRouting(Some(other));
    assert!(work_on(&mut session, Some(command), "route add", &[]).1.is_err());
    assert_eq!(state_of(&mut session, &[]).tunnel_name, "tun0");
}

#[test]
fn teardown_takes_everything_down() {
    let mut session = Session::new();
    applied(&mut session, &[]);
    let spawn = ClientCommand::SpawnChild(spawn_request());
    assert!(work_on(&mut session, Some(spawn), "", &[]).1.is_ok());
    let (ran, outcome) = work_on(&mut session, Some(ClientCommand::ClearRouting), "", &[]);
    assert_eq!(outcome, Ok(Payload::Ack));
    assert_eq!(ran, 8);
    let state = state_of(&mut session, &[]);
    assert!(!state.routing_active && state.children.is_empty());
    let (ran, outcome) = work_on(&mut session, Some(ClientCommand::ClearRouting), "", &[]);
    assert_eq!((ran, outcome), (0, Ok(Payload::Ack)));
}

#[test]
fn session_outlives_the_app() {
    let mut session = Session::new();
    session.connect(Peer::App);
    session.connect(Peer::App);
    session.connect(Peer::Root);
    applied(&mut session, &[]);
    assert!(state_of(&mut session, &[]).app_connected);
    assert!(!session.disconnect(Peer::Root));
    assert!(!session.disconnect(Peer::App));
    assert!(state_of(&mut session, &[]).app_connected);
    assert!(session.disconnect(Peer::App));
    let state = state_of(&mut session, &[]);
    assert!(state.routing_active && state.orphaned && !state.app_connected);
    session.connect(Peer::App);
    let state = state_of(&mut session, &[]);
    assert!(state.routing_active && !state.orphaned && state.app_connected);
}

#[test]
fn nothing_is_orphaned_without_a_session() {
    let mut session = Session::new();
    session.connect(Peer::App);
    assert!(!session.disconnect(Peer::App));
    assert!(!session.disconnect(Peer::App));
    assert!(!state_of(&mut session, &[]).orphaned);
}

#[test]
fn new_installation_ends_being_orphaned() {
    let mut session = Session::new();
    session.connect(Peer::App);
    applied(&mut session, &[]);
    assert!(session.disconnect(Peer::App));
    applied(&mut session, &[]);
    assert!(!state_of(&mut session, &[]).orphaned);
}

#[test]
fn requests_leave_the_connections() {
    let mut session = Session::new();
    session.connect(Peer::App);
    applied(&mut session, &[]);
    assert!(session.disconnect(Peer::App));
    for command in [ClientCommand::SessionState, ClientCommand::ReadCounters, ClientCommand::ReadNetDev] {
        assert!(work_on(&mut session, Some(command), "", &[]).1.is_ok());
        assert!(session.orphaned && session.app_clients == 0);
    }
    assert!(work_on(&mut session, Some(ClientCommand::ClearRouting), "", &[]).1.is_ok());
    assert!(!session.orphaned && session.app_clients == 0);
}

#[test]
fn counters_need_a_session() {
    let mut session = Session::new();
    let counters = || Some(ClientCommand::ReadCounters);
    assert_eq!(
        work_on(&mut session, counters(), "", &[]).1,
        Err("no active session".to_string())
    );
    applied(&mut session, &[]);
    assert_eq!(work_on(&mut session, counters(), "", &[]), (0, Ok(Payload::Counters(0))));
    applied(&mut session, &["one", "two"]);
    assert_eq!(work_on(&mut session, counters(), "", &[]), (4, Ok(Payload::Counters(400))));
    assert_eq!(state_of(&mut session, &[]).tproxy_mark_bytes, 400);
}

#[test]
fn counters_may_overflow() {
    let mut session = Session::new();
    applied(&mut session, &["one"]);
    let big = Some(b"1 18446744073709551615 MARK".to_vec());
    let work = Work::Count { outputs: vec![big.clone(), big], for_state: false };
    assert!(matches!(dispatch(&mut session, work, "1"), Action::CounterOverflow));
}

#[test]
fn children_come_and_go() {
    let mut session = Session::new();
    let spawn = || Some(ClientCommand::SpawnChild(spawn_request()));
    match work_on(&mut session, spawn(), "", &[]) {
        (1, Ok(Payload::Child(handle))) => {
            assert_eq!((handle.kind, handle.child_id, handle.pid), (3, 1, 77));
            assert!(handle.running);
        }
        _ => panic!("no child"),
    }
    assert!(work_on(&mut session, spawn(), "", &[]).1.is_ok());
    assert_eq!(state_of(&mut session, &[]).children.len(), 2);
    let kill = |id| Some(ClientCommand::KillChild(id));
    assert_eq!(work_on(&mut session, kill(1), "", &[]), (1, Ok(Payload::Ack)));
    assert_eq!(work_on(&mut session, kill(1), "", &[]), (0, Ok(Payload::Ack)));
    let state = state_of(&mut session, &[2]);
    assert_eq!(state.children.len(), 1);
    assert!(!state.children[0].running);
    assert!(state_of(&mut session, &[]).children.is_empty());
}

#[test]
fn refused_child_is_an_error() {
    let mut session = Session::new();
    let mut request = spawn_request();
    request.binary_path = "liby.so".to_string();
    assert_eq!(
        work_on(&mut session, Some(ClientCommand::SpawnChild(request)), "", &[]),
        (0, Err("refusing to exec liby.so: not an app native library".to_string()))
    );
}

#[test]
fn network_devices_are_passed_on() {
    let mut session = Session::new();
    let read = || Some(ClientCommand::ReadNetDev);
    assert_eq!(
        work_on(&mut session, read(), "", &[]).1,
        Ok(Payload::NetDev("table".to_string()))
    );
    assert_eq!(
        work_on(&mut session, read(), "x", &[]).1,
        Err("read /proc/net/dev: denied".to_string())
    );
}

#[test]
fn replies_carry_the_number_of_the_call() {
    assert_eq!(
        reply(7, Ok(Payload::Ack)),
        DaemonEnvelope { call_id: 7, frame: Some(Frame::Reply(Some(Payload::Ack))) }
    );
    assert_eq!(
        reply(8, Err("no".to_string())),
        DaemonEnvelope { call_id: 8, frame: Some(Frame::Error("no".to_string())) }
    );
}
