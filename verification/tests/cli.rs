use wingsvd::cli::{call, clear_routing, quote, run, session_state, state_json, CallOutcome, RunStep};
use wingsvd::rootd::{
    ChildHandle, ClientCommand, ClientEnvelope, DaemonEnvelope, Frame, Payload, SessionState,
};
use wingsvd::session::reply;

fn shown_state(children: Vec<ChildHandle>) -> SessionState {
    SessionState {
        routing_active: true,
        orphaned: false,
        tunnel_name: "tun\"0".to_string(),
        children,
        app_connected: true,
        tproxy_mark_bytes: 1024,
    }
}

#[test]
fn text_is_quoted() {
    assert_eq!(quote(""), "\"\"");
    assert_eq!(quote("a\"b\\c"), "\"a\\\"b\\\\c\"");
    assert_eq!(quote("\n\r\t"), "\"\\n\\r\\t\"");
    assert_eq!(quote("\u{0}\u{1f}\u{8}"), "\"\\u0000\\u001f\\u0008\"");
    assert_eq!(quote("\u{7f}\u{e9}\u{1f600}/"), "\"\u{7f}\u{e9}\u{1f600}/\"");
}

#[test]
fn quoted_text_stays_on_one_line() {
    let every: String = (0u8..128).map(|code| code as char).collect();
    assert!(quote(&every).chars().all(|c| c >= ' '));
}

#[test]
fn state_in_json() {
    assert_eq!(
        state_json(&shown_state(vec![]), "1.2.3"),
        "{\"running\":true,\"version\":\"1.2.3\",\"tunnel\":true,\"orphaned\":false,\"app_connected\":true,\"tunnel_name\":\"tun\\\"0\",\"tproxy_bytes\":1024,\"children\":[]}"
    );
    let children = vec![
        ChildHandle { kind: 1, child_id: 1, pid: 77, running: true },
        ChildHandle { kind: -2, child_id: 5, pid: -1, running: false },
    ];
    let text = state_json(&shown_state(children), "1");
    assert!(text.ends_with(
        "\"children\":[{\"kind\":1,\"pid\":77,\"running\":true},{\"kind\":-2,\"pid\":-1,\"running\":false}]}"
    ));
}

#[test]
fn calls_fail_for_a_reason() {
    let error = || "e".to_string();
    let cases = [
        (CallOutcome::NoName(error()), "abstract name: e"),
        (CallOutcome::NotRunning(error()), "daemon not running: e"),
        (CallOutcome::WriteFailed(error()), "write: e"),
        (CallOutcome::ReadFailed(error()), "read: e"),
        (CallOutcome::Closed, "daemon closed the connection"),
        (CallOutcome::Undecodable(error()), "decode: e"),
        (
            CallOutcome::Answered(DaemonEnvelope { call_id: 1, frame: None }),
            "empty frame",
        ),
        (
            CallOutcome::Answered(DaemonEnvelope { call_id: 1, frame: Some(Frame::Reply(None)) }),
            "empty reply",
        ),
        (CallOutcome::Answered(reply(1, Err("no active session".to_string()))), "no active session"),
    ];
    for (outcome, message) in cases {
        assert_eq!(call(outcome), Err(message.to_string()));
    }
}

#[test]
fn calls_give_what_was_answered() {
    assert_eq!(
        call(CallOutcome::Answered(reply(9, Ok(Payload::Counters(5))))),
        Ok(Payload::Counters(5))
    );
}

#[test]
fn unexpected_payloads_are_errors() {
    let acked = CallOutcome::Answered(reply(1, Ok(Payload::Ack)));
    assert_eq!(session_state(acked), Err("unexpected reply".to_string()));
    let counted = CallOutcome::Answered(reply(1, Ok(Payload::Counters(1))));
    assert_eq!(clear_routing(counted), Err("unexpected reply".to_string()));
    let shown = CallOutcome::Answered(reply(1, Ok(Payload::SessionState(shown_state(vec![])))));
    assert_eq!(session_state(shown), Ok(shown_state(vec![])));
    assert_eq!(clear_routing(CallOutcome::Answered(reply(1, Ok(Payload::Ack)))), Ok(()));
}

#[test]
fn status_asks_and_prints() {
    assert_eq!(
        run("status", None, "1"),
        RunStep::Call(ClientEnvelope { call_id: 1, command: Some(ClientCommand::SessionState) })
    );
    let shown = CallOutcome::Answered(reply(1, Ok(Payload::SessionState(shown_state(vec![])))));
    assert_eq!(
        run("status", Some(shown), "1"),
        RunStep::Print { line: state_json(&shown_state(vec![]), "1"), code: 0 }
    );
    assert_eq!(
        run("status", Some(CallOutcome::NotRunning("a\"b".to_string())), "1"),
        RunStep::Print {
            line: "{\"running\":false,\"error\":\"daemon not running: a\\\"b\"}".to_string(),
            code: 1,
        }
    );
}

#[test]
fn stop_asks_and_prints() {
    assert_eq!(
        run("stop", None, "1"),
        RunStep::Call(ClientEnvelope { call_id: 1, command: Some(ClientCommand::ClearRouting) })
    );
    assert_eq!(
        run("stop", Some(CallOutcome::Answered(reply(1, Ok(Payload::Ack)))), "1"),
        RunStep::Print { line: "{\"ok\":true}".to_string(), code: 0 }
    );
    assert_eq!(
        run("stop", Some(CallOutcome::Closed), "1"),
        RunStep::Print {
            line: "{\"ok\":false,\"error\":\"daemon closed the connection\"}".to_string(),
            code: 1,
        }
    );
}

#[test]
fn other_commands_get_the_usage() {
    for command in ["", "Status", "help"] {
        assert_eq!(
            run(command, None, "1"),
            RunStep::Complain {
                line: "usage: wingsvd [status|stop]   (no arguments runs the daemon)".to_string(),
                code: 2,
            }
        );
    }
}
