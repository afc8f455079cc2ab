use wingsvd::rootd::{ClientCommand, ClientEnvelope, DaemonEnvelope, Frame, Payload};
use wingsvd::serve::{greet, serve, ServeAction, ServeEvent};
use wingsvd::session::Peer;

const DATABASE: &[u8] = b"com.other 10001 0\nwings.v 10234 0 /data/user/0/wings.v\n";

#[test]
fn app_and_root_are_greeted() {
    assert_eq!(greet(Ok(10234), DATABASE, true), Ok(Peer::App));
    assert_eq!(greet(Ok(0), DATABASE, true), Ok(Peer::Root));
    assert_eq!(greet(Ok(0), b"", true), Ok(Peer::Root));
    assert_eq!(greet(Ok(0), b"wings.v 0\n", true), Ok(Peer::App));
}

#[test]
fn reinstalled_app_has_another_number() {
    assert_eq!(greet(Ok(10234), DATABASE, true), Ok(Peer::App));
    assert_eq!(
        greet(Ok(10234), b"wings.v 10300 0\n", true),
        Err("wingsvd: rejected uid=10234 (app is Some(10300))".to_string())
    );
    assert_eq!(greet(Ok(10300), b"wings.v 10300 0\n", true), Ok(Peer::App));
}

#[test]
fn others_are_turned_away() {
    assert_eq!(
        greet(Ok(10235), DATABASE, true),
        Err("wingsvd: rejected uid=10235 (app is Some(10234))".to_string())
    );
    assert_eq!(
        greet(Ok(2000), b"", true),
        Err("wingsvd: rejected uid=2000 (app is None)".to_string())
    );
    assert_eq!(
        greet(Err("Bad file descriptor".to_string()), b"", true),
        Err("wingsvd: SO_PEERCRED failed, dropping connection: Bad file descriptor".to_string())
    );
}

fn logged(event: ServeEvent) -> Option<String> {
    match serve(event) {
        ServeAction::End(message) => message,
        _ => panic!("the connection goes on"),
    }
}

#[test]
fn request_is_read_worked_on_and_answered() {
    assert!(matches!(serve(ServeEvent::Begun), ServeAction::Read));
    match serve(ServeEvent::Read(Ok(Some(vec![1, 2])))) {
        ServeAction::Decode(frame) => assert_eq!(frame, vec![1, 2]),
        _ => panic!("the frame is not decoded"),
    }
    let request = ClientEnvelope { call_id: 42, command: Some(ClientCommand::ReadCounters) };
    match serve(ServeEvent::Decoded(Ok(request))) {
        ServeAction::Work(request) => {
            assert_eq!(request.call_id, 42);
            assert_eq!(request.command, Some(ClientCommand::ReadCounters));
        }
        _ => panic!("the request is not worked on"),
    }
    match serve(ServeEvent::Worked { call_id: 42, outcome: Ok(Payload::Counters(7)) }) {
        ServeAction::Write(answer) => assert_eq!(
            answer,
            DaemonEnvelope { call_id: 42, frame: Some(Frame::Reply(Some(Payload::Counters(7)))) }
        ),
        _ => panic!("nothing is answered"),
    }
    match serve(ServeEvent::Worked { call_id: 43, outcome: Err("no".to_string()) }) {
        ServeAction::Write(answer) => assert_eq!(
            answer,
            DaemonEnvelope { call_id: 43, frame: Some(Frame::Error("no".to_string())) }
        ),
        _ => panic!("nothing is answered"),
    }
    assert!(matches!(serve(ServeEvent::Written(Ok(()))), ServeAction::Read));
}

#[test]
fn connection_ends() {
    assert_eq!(logged(ServeEvent::Read(Ok(None))), None);
    assert_eq!(
        logged(ServeEvent::Read(Err("x".to_string()))),
        Some("wingsvd: read: x".to_string())
    );
    assert_eq!(
        logged(ServeEvent::Decoded(Err("x".to_string()))),
        Some("wingsvd: malformed envelope: x".to_string())
    );
    assert_eq!(
        logged(ServeEvent::Written(Err("x".to_string()))),
        Some("wingsvd: write: x".to_string())
    );
}

#[test]
fn whole_connection_is_served_in_order() {
    let requests = [
        (3u64, Ok(Payload::Ack)),
        (9, Err("no active session".to_string())),
        (4, Ok(Payload::Counters(1))),
    ];
    let mut written = Vec::new();
    let mut event = ServeEvent::Begun;
    let mut next = 0;
    let end = loop {
        event = match serve(event) {
            ServeAction::Read => ServeEvent::Read(Ok(if next < requests.len() {
                Some(vec![next as u8])
            } else {
                None
            })),
            ServeAction::Decode(frame) => ServeEvent::Decoded(Ok(ClientEnvelope {
                call_id: requests[frame[0] as usize].0,
                command: None,
            })),
            ServeAction::Work(request) => {
                let (call_id, outcome) = &requests[next];
                assert_eq!(request.call_id, *call_id);
                next += 1;
                ServeEvent::Worked {
                    call_id: request.call_id,
                    outcome: match outcome {
                        Ok(Payload::Counters(bytes)) => Ok(Payload::Counters(*bytes)),
                        Ok(_) => Ok(Payload::Ack),
                        Err(message) => Err(message.clone()),
                    },
                }
            }
            ServeAction::Write(answer) => {
                written.push(answer);
                ServeEvent::Written(Ok(()))
            }
            ServeAction::End(message) => break message,
        };
    };
    assert_eq!(end, None);
    assert_eq!(
        written,
        vec![
            DaemonEnvelope { call_id: 3, frame: Some(Frame::Reply(Some(Payload::Ack))) },
            DaemonEnvelope { call_id: 9, frame: Some(Frame::Error("no active session".to_string())) },
            DaemonEnvelope { call_id: 4, frame: Some(Frame::Reply(Some(Payload::Counters(1)))) },
        ]
    );
}
