//! The life of one connection: who may have it, what is read from it and what is written.
//!
//! A connection that ends leaves the routing up. Only an explicit request takes it down.
use crate::packages::{app_number, app_uid};
use crate::rootd::{ClientEnvelope, DaemonEnvelope, Payload};
use crate::session::{identify, peer_of, reply, reply_envelope, Peer};
use crate::text::{decimal, push_decimal, text_of};
use vstd::prelude::*;

verus! {

broadcast use vstd::string::group_string_axioms;

/// The app's user number as it stands in a message.
pub open spec fn app_uid_text(app_uid: Option<u32>) -> Seq<char> {
    match app_uid {
        Some(uid) => "Some("@ + decimal(uid as nat) + ")"@,
        None => "None"@,
    }
}

/// Who a connection is served for, or the message that is logged when it is dropped.
pub open spec fn admission(uid: Result<u32, String>, app_uid: Option<u32>) -> Result<
    Peer,
    Seq<char>,
> {
    match uid {
        Err(error) => Err("wingsvd: SO_PEERCRED failed, dropping connection: "@ + error@),
        Ok(known) => if peer_of(known, app_uid) == Peer::Stranger {
            Err(
                "wingsvd: rejected uid="@ + decimal(known as nat) + " (app is "@ + app_uid_text(
                    app_uid,
                ) + ")"@,
            )
        } else {
            Ok(peer_of(known, app_uid))
        },
    }
}

/// Tells who a connection is served for, given the user number that the kernel reports for it
/// and the package database as it is now: `database` was read of it, and all of it if
/// `complete`. Nothing was read of a database that cannot be opened.
pub fn greet(uid: Result<u32, String>, database: &[u8], complete: bool) -> (peer: Result<
    Peer,
    String,
>)
    ensures
        peer is Ok == admission(uid, app_number(database@, complete)) is Ok,
        peer matches Ok(known) ==> known == admission(uid, app_number(database@, complete))->Ok_0,
        peer matches Err(message) ==> message@ == admission(
            uid,
            app_number(database@, complete),
        )->Err_0,
{
    let number: Option<u32> = app_uid("wings.v", database, complete);
    match uid {
        Err(error) => {
            let mut message = "wingsvd: SO_PEERCRED failed, dropping connection: ".to_string();
            message.push_str(error.as_str());
            Err(message)
        },
        Ok(known) => {
            let peer = identify(known, number);
            if peer == Peer::Stranger {
                let mut message = "wingsvd: rejected uid=".to_string();
                push_decimal(&mut message, known as u64);
                message.push_str(" (app is ");
                let ghost head = message@;
                match number {
                    Some(app) => {
                        message.push_str("Some(");
                        push_decimal(&mut message, app as u64);
                        message.push_str(")");
                    },
                    None => {
                        message.push_str("None");
                    },
                }
                assert(message@ =~= head + app_uid_text(number));
                message.push_str(")");
                Err(message)
            } else {
                Ok(peer)
            }
        },
    }
}

/// What happened on a connection that is served.
pub enum ServeEvent {
    /// It began.
    Begun,
    /// A frame was read, the connection ended, or reading failed.
    Read(Result<Option<Vec<u8>>, String>),
    /// A frame was decoded, or it is no request.
    Decoded(Result<ClientEnvelope, String>),
    /// The request of this number was worked on, and this is to be answered.
    Worked { call_id: u64, outcome: Result<Payload, String> },
    /// The answer was written, or writing failed.
    Written(Result<(), String>),
}

/// What to do next on a connection.
pub enum ServeAction {
    /// Read a frame.
    Read,
    /// Decode a frame.
    Decode(Vec<u8>),
    /// Work on a request.
    Work(ClientEnvelope),
    /// Write an answer.
    Write(DaemonEnvelope),
    /// End the connection, and log a message if there is one.
    End(Option<String>),
}

/// The texts of an action.
pub enum ServeActionView {
    Read,
    Decode(Vec<u8>),
    Work(ClientEnvelope),
    Write(DaemonEnvelope),
    End(Option<Seq<char>>),
}

impl View for ServeAction {
    type V = ServeActionView;

    open spec fn view(&self) -> ServeActionView {
        match *self {
            ServeAction::Read => ServeActionView::Read,
            ServeAction::Decode(frame) => ServeActionView::Decode(frame),
            ServeAction::Work(request) => ServeActionView::Work(request),
            ServeAction::Write(answer) => ServeActionView::Write(answer),
            ServeAction::End(message) => ServeActionView::End(text_of(message)),
        }
    }
}

/// What an event on a connection calls for: frames are read, decoded, worked on and answered in
/// turn, until the connection ends or something fails.
pub open spec fn serve_step(event: ServeEvent) -> ServeActionView {
    match event {
        ServeEvent::Begun => ServeActionView::Read,
        ServeEvent::Read(Ok(Some(frame))) => ServeActionView::Decode(frame),
        ServeEvent::Read(Ok(None)) => ServeActionView::End(None),
        ServeEvent::Read(Err(error)) => ServeActionView::End(Some("wingsvd: read: "@ + error@)),
        ServeEvent::Decoded(Ok(request)) => ServeActionView::Work(request),
        ServeEvent::Decoded(Err(error)) => ServeActionView::End(
            Some("wingsvd: malformed envelope: "@ + error@),
        ),
        ServeEvent::Worked { call_id, outcome } => ServeActionView::Write(
            reply_envelope(call_id, outcome),
        ),
        ServeEvent::Written(Ok(_)) => ServeActionView::Read,
        ServeEvent::Written(Err(error)) => ServeActionView::End(
            Some("wingsvd: write: "@ + error@),
        ),
    }
}

fn end_with(label: &str, error: String) -> (action: ServeAction)
    ensures
        action@ == ServeActionView::End(Some(label@ + error@)),
{
    let mut message = label.to_string();
    message.push_str(error.as_str());
    ServeAction::End(Some(message))
}

/// Tells what to do next on a connection.
pub fn serve(event: ServeEvent) -> (action: ServeAction)
    ensures
        action@ == serve_step(event),
{
    match event {
        ServeEvent::Begun => ServeAction::Read,
        ServeEvent::Read(Ok(Some(frame))) => ServeAction::Decode(frame),
        ServeEvent::Read(Ok(None)) => ServeAction::End(None),
        ServeEvent::Read(Err(error)) => end_with("wingsvd: read: ", error),
        ServeEvent::Decoded(Ok(request)) => ServeAction::Work(request),
        ServeEvent::Decoded(Err(error)) => end_with("wingsvd: malformed envelope: ", error),
        ServeEvent::Worked { call_id, outcome } => ServeAction::Write(reply(call_id, outcome)),
        ServeEvent::Written(Ok(_)) => ServeAction::Read,
        ServeEvent::Written(Err(error)) => end_with("wingsvd: write: ", error),
    }
}

/// A connection is served exactly if the kernel tells whose it is, and it is the app's or
/// root's. Nothing that the client sends takes part in this.
pub proof fn only_known_peers_are_served(uid: Result<u32, String>, app_uid: Option<u32>)
    ensures
        admission(uid, app_uid) is Ok <==> (uid matches Ok(known) && (known == 0 || app_uid == Some(
            known,
        ))),
        admission(uid, app_uid) != Ok::<Peer, Seq<char>>(Peer::Stranger),
{
}

/// The app's number is looked up anew for every connection: a user that was the app's is
/// refused as soon as the database gives the app another number, or none.
pub proof fn app_numbers_are_not_remembered(
    uid: u32,
    before: Seq<u8>,
    before_complete: bool,
    now: Seq<u8>,
    now_complete: bool,
)
    requires
        uid != 0,
        app_number(before, before_complete) == Some(uid),
        app_number(now, now_complete) != Some(uid),
    ensures
        admission(Ok(uid), app_number(before, before_complete)) == Ok::<Peer, Seq<char>>(Peer::App),
        admission(Ok(uid), app_number(now, now_complete)) is Err,
{
}

/// Whether an event is what comes of an action. A request is worked on under its own number, and
/// nothing comes of the end of a connection.
pub open spec fn comes_of(action: ServeActionView, event: ServeEvent) -> bool {
    match action {
        ServeActionView::Read => event is Read,
        ServeActionView::Decode(_) => event is Decoded,
        ServeActionView::Work(request) => event matches ServeEvent::Worked { call_id, .. }
            && call_id == request.call_id,
        ServeActionView::Write(_) => event is Written,
        ServeActionView::End(_) => false,
    }
}

/// Whether events are those of one connection, from its beginning on: each one comes of what the
/// one before it called for.
pub open spec fn is_connection(events: Seq<ServeEvent>) -> bool {
    &&& events.len() > 0
    &&& events[0] is Begun
    &&& forall|i: int|
        #![trigger events[i]]
        1 <= i < events.len() ==> comes_of(serve_step(events[i - 1]), events[i])
}

/// The requests that were decoded, in their order.
pub open spec fn requests(events: Seq<ServeEvent>) -> Seq<ClientEnvelope>
    decreases events.len(),
{
    if events.len() == 0 {
        seq![]
    } else {
        match events.last() {
            ServeEvent::Decoded(Ok(request)) => requests(events.drop_last()).push(request),
            _ => requests(events.drop_last()),
        }
    }
}

/// What came of working on requests, in its order.
pub open spec fn outcomes(events: Seq<ServeEvent>) -> Seq<Result<Payload, String>>
    decreases events.len(),
{
    if events.len() == 0 {
        seq![]
    } else {
        match events.last() {
            ServeEvent::Worked { outcome, .. } => outcomes(events.drop_last()).push(outcome),
            _ => outcomes(events.drop_last()),
        }
    }
}

/// The answers that are written, in their order.
pub open spec fn answers(events: Seq<ServeEvent>) -> Seq<DaemonEnvelope>
    decreases events.len(),
{
    if events.len() == 0 {
        seq![]
    } else {
        match serve_step(events.last()) {
            ServeActionView::Write(answer) => answers(events.drop_last()).push(answer),
            _ => answers(events.drop_last()),
        }
    }
}

/// Whether the last event is a request that was decoded and not yet worked on.
pub open spec fn is_pending(events: Seq<ServeEvent>) -> bool {
    serve_step(events.last()) is Work
}

/// On every connection, each request that is decoded is answered, once and in order, with its
/// own number and with what came of working on it. At most the last request is not yet answered,
/// and none is when the connection ends. An error in working on a request ends nothing.
pub proof fn requests_are_answered_in_order(events: Seq<ServeEvent>)
    requires
        is_connection(events),
    ensures
        requests(events).len() == answers(events).len() + (if is_pending(events) {
            1int
        } else {
            0
        }),
        outcomes(events).len() == answers(events).len(),
        forall|i: int|
            0 <= i < answers(events).len() ==> #[trigger] answers(events)[i] == reply_envelope(
                requests(events)[i].call_id,
                outcomes(events)[i],
            ),
        is_pending(events) ==> serve_step(events.last()) == ServeActionView::Work(
            requests(events).last(),
        ),
    decreases events.len(),
{
    let before = events.drop_last();
    if events.len() == 1 {
        assert(before =~= seq![]);
    } else {
        let n = events.len() - 1;
        assert forall|i: int| #![trigger before[i]] 1 <= i < before.len() implies comes_of(
            serve_step(before[i - 1]),
            before[i],
        ) by {
            assert(before[i] == events[i]);
        }
        requests_are_answered_in_order(before);
        assert(comes_of(serve_step(events[n - 1]), events[n]));
        assert(before.last() == events[n - 1]);
    }
}

/// Nothing is read, worked on or written after a connection ended: the event that ends it is the
/// last one. Its end is that of the stream, or the first failure to read, decode or write.
pub proof fn nothing_follows_the_end(events: Seq<ServeEvent>, i: int)
    requires
        is_connection(events),
        0 <= i < events.len(),
        serve_step(events[i]) is End,
    ensures
        i == events.len() - 1,
        requests(events).len() == answers(events).len(),
        ({
            ||| events[i] matches ServeEvent::Read(Ok(None))
            ||| events[i] matches ServeEvent::Read(Err(_))
            ||| events[i] matches ServeEvent::Decoded(Err(_))
            ||| events[i] matches ServeEvent::Written(Err(_))
        }),
{
    if i + 1 < events.len() {
        assert(comes_of(serve_step(events[i + 1 - 1]), events[i + 1]));
    }
    requests_are_answered_in_order(events);
}

/// The answer that is written to a request carries the number of the request, whatever came of
/// it.
pub proof fn answers_carry_their_number(request: ClientEnvelope, outcome: Result<Payload, String>)
    ensures
        serve_step(ServeEvent::Worked { call_id: request.call_id, outcome }) matches
            ServeActionView::Write(answer) && answer.call_id == request.call_id
            && answer.frame is Some,
{
}

/// What is decoded is what was read, and what is worked on is what was decoded.
pub proof fn frames_are_passed_on(frame: Vec<u8>, request: ClientEnvelope)
    ensures
        serve_step(ServeEvent::Read(Ok(Some(frame)))) == ServeActionView::Decode(frame),
        serve_step(ServeEvent::Decoded(Ok(request))) == ServeActionView::Work(request),
        serve_step(ServeEvent::Begun) is Read,
        serve_step(ServeEvent::Written(Ok(()))) is Read,
        serve_step(ServeEvent::Read(Ok(None))) == ServeActionView::End(None),
{
}

/// A connection that ends with a failure is logged with its cause at the end of the message, and
/// a failure to read, to decode and to write are told apart.
pub proof fn failures_are_logged_with_their_cause(error: String)
    ensures
        serve_step(ServeEvent::Read(Err(error))) matches ServeActionView::End(Some(message))
            && message.skip(15) == error@ && message.take(15) == "wingsvd: read: "@,
        serve_step(ServeEvent::Decoded(Err(error))) matches ServeActionView::End(Some(message))
            && message.skip(29) == error@ && message.take(29) == "wingsvd: malformed envelope: "@,
        serve_step(ServeEvent::Written(Err(error))) matches ServeActionView::End(Some(message))
            && message.skip(16) == error@ && message.take(16) == "wingsvd: write: "@,
{
    reveal_strlit("wingsvd: read: ");
    reveal_strlit("wingsvd: malformed envelope: ");
    reveal_strlit("wingsvd: write: ");
    let read = "wingsvd: read: "@ + error@;
    let decode = "wingsvd: malformed envelope: "@ + error@;
    let write = "wingsvd: write: "@ + error@;
    assert(decode.skip(29) =~= error@ && decode.take(29) =~= "wingsvd: malformed envelope: "@);
    assert(read.skip(15) =~= error@ && read.take(15) =~= "wingsvd: read: "@);
    assert(write.skip(16) =~= error@ && write.take(16) =~= "wingsvd: write: "@);
}

} // verus!
