//! `wingsvd status` and `wingsvd stop`, the shell face of the daemon.
//!
//! A web page that can only run shell commands cannot speak to the socket itself. These
//! commands connect to the daemon as the app does and print JSON. They are a client, and no
//! second server: the running daemon stays the only thing that owns any state.
use crate::rootd::{
    outcome_text, ChildHandle, ClientCommand, ClientEnvelope, DaemonEnvelope, Frame, Payload,
    PayloadView, SessionState, SessionStateView,
};
use crate::session::reply_envelope;
use crate::text::{
    chars_of, decimal, digit, digit_char, push_decimal, push_signed, same_text, signed_decimal,
};
use vstd::prelude::*;

verus! {

broadcast use vstd::string::group_string_axioms;

/// The characters that stand for one character in a JSON string.
pub open spec fn escape(c: char) -> Seq<char> {
    if c == '"' {
        seq!['\\', '"']
    } else if c == '\\' {
        seq!['\\', '\\']
    } else if c == '\n' {
        seq!['\\', 'n']
    } else if c == '\r' {
        seq!['\\', 'r']
    } else if c == '\t' {
        seq!['\\', 't']
    } else if (c as u32) < 0x20 {
        seq!['\\', 'u', '0', '0', digit(c as nat / 16), digit(c as nat % 16)]
    } else {
        seq![c]
    }
}

/// The characters that stand for a text in a JSON string.
pub open spec fn escaped(s: Seq<char>) -> Seq<char>
    decreases s.len(),
{
    if s.len() == 0 {
        seq![]
    } else {
        escape(s[0]) + escaped(s.skip(1))
    }
}

/// A text as a JSON string.
pub open spec fn quoted(s: Seq<char>) -> Seq<char> {
    seq!['"'] + escaped(s) + seq!['"']
}

proof fn lemma_escaped_push(s: Seq<char>, c: char)
    ensures
        escaped(s.push(c)) == escaped(s) + escape(c),
    decreases s.len(),
{
    if s.len() == 0 {
        assert(s.push(c).skip(1) =~= seq![]);
        assert(escaped(s.push(c).skip(1)) =~= seq![]);
        assert(escaped(s.push(c)) =~= escaped(s) + escape(c));
    } else {
        lemma_escaped_push(s.skip(1), c);
        assert(s.push(c).skip(1) =~= s.skip(1).push(c));
        assert(escaped(s.push(c)) =~= escaped(s) + escape(c));
    }
}

/// Appends what stands for one character in a JSON string.
fn push_escaped(out: &mut String, c: char)
    ensures
        final(out)@ == old(out)@ + escape(c),
{
    let ghost before = out@;
    if c == '"' {
        out.push('\\');
        out.push('"');
    } else if c == '\\' {
        out.push('\\');
        out.push('\\');
    } else if c == '\n' {
        out.push('\\');
        out.push('n');
    } else if c == '\r' {
        out.push('\\');
        out.push('r');
    } else if c == '\t' {
        out.push('\\');
        out.push('t');
    } else if (c as u32) < 0x20 {
        let code: u8 = (c as u32) as u8;
        out.push('\\');
        out.push('u');
        out.push('0');
        out.push('0');
        out.push(digit_char(code / 16));
        out.push(digit_char(code % 16));
    } else {
        out.push(c);
    }
    assert(out@ =~= before + escape(c));
}

/// Writes a text as a JSON string.
pub fn quote(value: &str) -> (out: String)
    ensures
        out@ == quoted(value@),
{
    let chars = chars_of(value);
    let mut out = String::new();
    out.push('"');
    let mut i: usize = 0;
    assert(out@ =~= seq!['"'] + escaped(chars@.take(0)));
    while i < chars.len()
        invariant
            i <= chars@.len(),
            out@ == seq!['"'] + escaped(chars@.take(i as int)),
        decreases chars@.len() - i,
    {
        proof {
            lemma_escaped_push(chars@.take(i as int), chars@[i as int]);
            assert(chars@.take(i + 1) =~= chars@.take(i as int).push(chars@[i as int]));
        }
        push_escaped(&mut out, chars[i]);
        i = i + 1;
        assert(out@ =~= seq!['"'] + escaped(chars@.take(i as int)));
    }
    assert(chars@.take(i as int) =~= value@);
    out.push('"');
    assert(out@ =~= quoted(value@));
    out
}

/// A truth value in JSON.
pub open spec fn bool_text(value: bool) -> Seq<char> {
    if value {
        "true"@
    } else {
        "false"@
    }
}

fn push_bool(out: &mut String, value: bool)
    ensures
        final(out)@ == old(out)@ + bool_text(value),
{
    if value {
        out.push_str("true");
    } else {
        out.push_str("false");
    }
}

/// A child in JSON.
pub open spec fn child_text(child: ChildHandle) -> Seq<char> {
    "{\"kind\":"@ + signed_decimal(child.kind as int) + ",\"pid\":"@ + signed_decimal(
        child.pid as int,
    ) + ",\"running\":"@ + bool_text(child.running) + "}"@
}

/// Children in JSON, with commas between them.
pub open spec fn children_text(children: Seq<ChildHandle>) -> Seq<char>
    decreases children.len(),
{
    if children.len() == 0 {
        seq![]
    } else if children.len() == 1 {
        child_text(children[0])
    } else {
        children_text(children.drop_last()) + ","@ + child_text(children.last())
    }
}

/// The state of the daemon in JSON.
pub open spec fn state_text(state: SessionStateView, version: Seq<char>) -> Seq<char> {
    "{\"running\":true,\"version\":"@ + quoted(version) + ",\"tunnel\":"@ + bool_text(
        state.routing_active,
    ) + ",\"orphaned\":"@ + bool_text(state.orphaned) + ",\"app_connected\":"@ + bool_text(
        state.app_connected,
    ) + ",\"tunnel_name\":"@ + quoted(state.tunnel_name) + ",\"tproxy_bytes\":"@ + decimal(
        state.tproxy_mark_bytes as nat,
    ) + ",\"children\":["@ + children_text(state.children) + "]}"@
}

fn push_child(out: &mut String, child: &ChildHandle)
    ensures
        final(out)@ == old(out)@ + child_text(*child),
{
    let ghost before = out@;
    out.push_str("{\"kind\":");
    push_signed(out, child.kind);
    out.push_str(",\"pid\":");
    push_signed(out, child.pid);
    out.push_str(",\"running\":");
    push_bool(out, child.running);
    out.push_str("}");
    assert(out@ =~= before + child_text(*child));
}

fn push_children(out: &mut String, children: &Vec<ChildHandle>)
    ensures
        final(out)@ == old(out)@ + children_text(children@),
{
    let ghost before = out@;
    let mut i: usize = 0;
    assert(out@ =~= before + children_text(children@.take(0)));
    while i < children.len()
        invariant
            i <= children@.len(),
            out@ == before + children_text(children@.take(i as int)),
        decreases children@.len() - i,
    {
        if i > 0 {
            out.push_str(",");
        }
        push_child(out, &children[i]);
        i = i + 1;
        proof {
            let made = children@.take(i as int);
            assert(made.drop_last() =~= children@.take(i - 1));
            assert(out@ =~= before + children_text(made));
        }
    }
    assert(children@.take(i as int) =~= children@);
}

/// Writes the state of the daemon in JSON. `version` is that of the program that writes it.
pub fn state_json(state: &SessionState, version: &str) -> (out: String)
    ensures
        out@ == state_text(state@, version@),
{
    let mut out = "{\"running\":true,\"version\":".to_string();
    out.push_str(quote(version).as_str());
    out.push_str(",\"tunnel\":");
    push_bool(&mut out, state.routing_active);
    out.push_str(",\"orphaned\":");
    push_bool(&mut out, state.orphaned);
    out.push_str(",\"app_connected\":");
    push_bool(&mut out, state.app_connected);
    out.push_str(",\"tunnel_name\":");
    out.push_str(quote(state.tunnel_name.as_str()).as_str());
    out.push_str(",\"tproxy_bytes\":");
    push_decimal(&mut out, state.tproxy_mark_bytes);
    out.push_str(",\"children\":[");
    push_children(&mut out, &state.children);
    out.push_str("]}");
    out
}

/// What came of a call of the daemon.
#[derive(Debug, PartialEq, Eq)]
pub enum CallOutcome {
    /// The socket's name was refused.
    NoName(String),
    /// Nobody listens.
    NotRunning(String),
    /// The request could not be written.
    WriteFailed(String),
    /// No answer could be read.
    ReadFailed(String),
    /// The connection ended before an answer.
    Closed,
    /// The answer is no message.
    Undecodable(String),
    /// The daemon answered.
    Answered(DaemonEnvelope),
}

/// What a call of the daemon gives its caller.
pub open spec fn call_result(outcome: CallOutcome) -> Result<PayloadView, Seq<char>> {
    match outcome {
        CallOutcome::NoName(error) => Err("abstract name: "@ + error@),
        CallOutcome::NotRunning(error) => Err("daemon not running: "@ + error@),
        CallOutcome::WriteFailed(error) => Err("write: "@ + error@),
        CallOutcome::ReadFailed(error) => Err("read: "@ + error@),
        CallOutcome::Closed => Err("daemon closed the connection"@),
        CallOutcome::Undecodable(error) => Err("decode: "@ + error@),
        CallOutcome::Answered(response) => match response.frame {
            Some(Frame::Reply(Some(payload))) => Ok(payload@),
            Some(Frame::Reply(None)) => Err("empty reply"@),
            Some(Frame::Error(message)) => Err(message@),
            None => Err("empty frame"@),
        },
    }
}

fn labelled(label: &str, error: String) -> (message: String)
    ensures
        message@ == label@ + error@,
{
    let mut message = label.to_string();
    message.push_str(error.as_str());
    message
}

/// Tells what a call of the daemon gives its caller.
pub fn call(outcome: CallOutcome) -> (result: Result<Payload, String>)
    ensures
        outcome_text(result) == call_result(outcome),
{
    match outcome {
        CallOutcome::NoName(error) => Err(labelled("abstract name: ", error)),
        CallOutcome::NotRunning(error) => Err(labelled("daemon not running: ", error)),
        CallOutcome::WriteFailed(error) => Err(labelled("write: ", error)),
        CallOutcome::ReadFailed(error) => Err(labelled("read: ", error)),
        CallOutcome::Closed => Err("daemon closed the connection".to_string()),
        CallOutcome::Undecodable(error) => Err(labelled("decode: ", error)),
        CallOutcome::Answered(response) => match response.frame {
            Some(Frame::Reply(Some(payload))) => Ok(payload),
            Some(Frame::Reply(None)) => Err("empty reply".to_string()),
            Some(Frame::Error(message)) => Err(message),
            None => Err("empty frame".to_string()),
        },
    }
}

/// The state that a call of the daemon gives, or the error in its place.
pub open spec fn state_result(outcome: CallOutcome) -> Result<SessionStateView, Seq<char>> {
    match call_result(outcome) {
        Ok(PayloadView::SessionState(state)) => Ok(state),
        Ok(_) => Err("unexpected reply"@),
        Err(message) => Err(message),
    }
}

/// Tells the state of the daemon, given what came of asking it.
pub fn session_state(outcome: CallOutcome) -> (result: Result<SessionState, String>)
    ensures
        result is Ok == state_result(outcome) is Ok,
        result matches Ok(state) ==> state@ == state_result(outcome)->Ok_0,
        result matches Err(message) ==> message@ == state_result(outcome)->Err_0,
{
    match call(outcome) {
        Ok(Payload::SessionState(state)) => Ok(state),
        Ok(_) => Err("unexpected reply".to_string()),
        Err(message) => Err(message),
    }
}

/// What a request that is only acknowledged gives.
pub open spec fn ack_result(outcome: CallOutcome) -> Result<(), Seq<char>> {
    match call_result(outcome) {
        Ok(PayloadView::Ack) => Ok(()),
        Ok(_) => Err("unexpected reply"@),
        Err(message) => Err(message),
    }
}

/// Tells whether the routing was taken down, given what came of asking for it.
pub fn clear_routing(outcome: CallOutcome) -> (result: Result<(), String>)
    ensures
        result is Ok == ack_result(outcome) is Ok,
        result matches Err(message) ==> message@ == ack_result(outcome)->Err_0,
{
    match call(outcome) {
        Ok(Payload::Ack) => Ok(()),
        Ok(_) => Err("unexpected reply".to_string()),
        Err(message) => Err(message),
    }
}

/// What a command of the command line does next.
#[derive(Debug, PartialEq, Eq)]
pub enum RunStep {
    /// Call the daemon with this request, and report what came of it.
    Call(ClientEnvelope),
    /// Print a line and exit with this status.
    Print { line: String, code: i32 },
    /// Print a line on the error output and exit with this status.
    Complain { line: String, code: i32 },
}

/// The texts of a step.
pub enum RunStepView {
    Call(ClientEnvelope),
    Print { line: Seq<char>, code: int },
    Complain { line: Seq<char>, code: int },
}

impl View for RunStep {
    type V = RunStepView;

    open spec fn view(&self) -> RunStepView {
        match *self {
            RunStep::Call(request) => RunStepView::Call(request),
            RunStep::Print { line, code } => RunStepView::Print { line: line@, code: code as int },
            RunStep::Complain { line, code } => RunStepView::Complain {
                line: line@,
                code: code as int,
            },
        }
    }
}

/// What a command of the command line does, before the daemon was called and after. A daemon
/// that is down is a status worth printing.
pub open spec fn run_step(
    command: Seq<char>,
    outcome: Option<CallOutcome>,
    version: Seq<char>,
) -> RunStepView {
    if command == "status"@ {
        match outcome {
            None => RunStepView::Call(
                ClientEnvelope { call_id: 1, command: Some(ClientCommand::SessionState) },
            ),
            Some(known) => match state_result(known) {
                Ok(state) => RunStepView::Print { line: state_text(state, version), code: 0 },
                Err(message) => RunStepView::Print {
                    line: "{\"running\":false,\"error\":"@ + quoted(message) + "}"@,
                    code: 1,
                },
            },
        }
    } else if command == "stop"@ {
        match outcome {
            None => RunStepView::Call(
                ClientEnvelope { call_id: 1, command: Some(ClientCommand::ClearRouting) },
            ),
            Some(known) => match ack_result(known) {
                Ok(_) => RunStepView::Print { line: "{\"ok\":true}"@, code: 0 },
                Err(message) => RunStepView::Print {
                    line: "{\"ok\":false,\"error\":"@ + quoted(message) + "}"@,
                    code: 1,
                },
            },
        }
    } else {
        RunStepView::Complain {
            line: "usage: wingsvd [status|stop]   (no arguments runs the daemon)"@,
            code: 2,
        }
    }
}

fn complaint(label: &str, message: &str) -> (line: String)
    ensures
        line@ == label@ + quoted(message@) + "}"@,
{
    let mut line = label.to_string();
    line.push_str(quote(message).as_str());
    line.push_str("}");
    line
}

/// Tells what a command of the command line does next: `outcome` is what came of calling the
/// daemon, once it was called.
pub fn run(command: &str, outcome: Option<CallOutcome>, version: &str) -> (step: RunStep)
    ensures
        step@ == run_step(command@, outcome, version@),
{
    if same_text(command, "status") {
        match outcome {
            None => RunStep::Call(
                ClientEnvelope { call_id: 1, command: Some(ClientCommand::SessionState) },
            ),
            Some(known) => match session_state(known) {
                Ok(state) => RunStep::Print { line: state_json(&state, version), code: 0 },
                Err(message) => RunStep::Print {
                    line: complaint("{\"running\":false,\"error\":", message.as_str()),
                    code: 1,
                },
            },
        }
    } else if same_text(command, "stop") {
        match outcome {
            None => RunStep::Call(
                ClientEnvelope { call_id: 1, command: Some(ClientCommand::ClearRouting) },
            ),
            Some(known) => match clear_routing(known) {
                Ok(_) => RunStep::Print { line: "{\"ok\":true}".to_string(), code: 0 },
                Err(message) => RunStep::Print {
                    line: complaint("{\"ok\":false,\"error\":", message.as_str()),
                    code: 1,
                },
            },
        }
    } else {
        RunStep::Complain {
            line: "usage: wingsvd [status|stop]   (no arguments runs the daemon)".to_string(),
            code: 2,
        }
    }
}

/// The value of a hexadecimal digit.
pub open spec fn hex_value(c: char) -> Option<nat> {
    if '0' <= c <= '9' {
        Some((c as nat - '0' as nat) as nat)
    } else if 'a' <= c <= 'f' {
        Some((c as nat - 'a' as nat + 10) as nat)
    } else if 'A' <= c <= 'F' {
        Some((c as nat - 'A' as nat + 10) as nat)
    } else {
        None
    }
}

/// The character that the four digits of a JSON escape stand for, below the surrogates.
pub open spec fn unicode_escape(s: Seq<char>) -> Option<char> {
    match (hex_value(s[0]), hex_value(s[1]), hex_value(s[2]), hex_value(s[3])) {
        (Some(a), Some(b), Some(c), Some(d)) => {
            let code = 4096 * a + 256 * b + 16 * c + d;
            if code < 0xd800 {
                Some(code as char)
            } else {
                None
            }
        },
        _ => None,
    }
}

/// The character that a JSON escape of two characters stands for, by the second of them.
pub open spec fn short_escape(c: char) -> Option<char> {
    if c == '"' || c == '\\' || c == '/' {
        Some(c)
    } else if c == 'n' {
        Some('\n')
    } else if c == 'r' {
        Some('\r')
    } else if c == 't' {
        Some('\t')
    } else if c == 'b' {
        Some('\u{8}')
    } else if c == 'f' {
        Some('\u{c}')
    } else {
        None
    }
}

/// Reads a JSON string behind its opening quotation mark: the text, and what follows the
/// closing quotation mark. Control characters may not stand in it.
pub open spec fn json_rest(s: Seq<char>) -> Option<(Seq<char>, Seq<char>)>
    decreases s.len(),
{
    if s.len() == 0 || (s[0] as u32) < 0x20 {
        None
    } else if s[0] == '"' {
        Some((seq![], s.skip(1)))
    } else if s[0] != '\\' {
        prefixed(s[0], json_rest(s.skip(1)))
    } else if s.len() >= 2 && short_escape(s[1]) is Some {
        prefixed(short_escape(s[1])->0, json_rest(s.skip(2)))
    } else if s.len() >= 6 && s[1] == 'u' && unicode_escape(s.skip(2)) is Some {
        prefixed(unicode_escape(s.skip(2))->0, json_rest(s.skip(6)))
    } else {
        None
    }
}

/// Puts a character in front of a text that was read.
pub open spec fn prefixed(c: char, read: Option<(Seq<char>, Seq<char>)>) -> Option<
    (Seq<char>, Seq<char>),
> {
    match read {
        Some((text, rest)) => Some((seq![c] + text, rest)),
        None => None,
    }
}

/// Reads a JSON string: the text, and what follows the string.
pub open spec fn json_string(s: Seq<char>) -> Option<(Seq<char>, Seq<char>)> {
    if s.len() > 0 && s[0] == '"' {
        json_rest(s.skip(1))
    } else {
        None
    }
}

proof fn lemma_escape_reads_back(c: char, rest: Seq<char>)
    ensures
        json_rest(escape(c) + rest) == prefixed(c, json_rest(rest)),
{
    let s = escape(c) + rest;
    let n = escape(c).len() as int;
    assert(s.skip(n) =~= rest);
    if n == 6 {
        let code = c as nat;
        assert(code < 32);
        assert(s.skip(2)[0] == '0' && s.skip(2)[1] == '0');
        assert(hex_value(digit(code / 16)) == Some(code / 16));
        assert(hex_value(digit(code % 16)) == Some(code % 16));
        assert(unicode_escape(s.skip(2)) == Some(c));
    }
}

proof fn lemma_escaped_reads_back(value: Seq<char>, rest: Seq<char>)
    ensures
        json_rest(escaped(value) + seq!['"'] + rest) == Some((value, rest)),
    decreases value.len(),
{
    let s = escaped(value) + seq!['"'] + rest;
    if value.len() == 0 {
        assert(s.skip(1) =~= rest);
        assert(s[0] == '"');
        assert(value =~= seq![]);
    } else {
        let tail = escaped(value.skip(1)) + seq!['"'] + rest;
        lemma_escaped_reads_back(value.skip(1), rest);
        lemma_escape_reads_back(value[0], tail);
        assert(s =~= escape(value[0]) + tail);
        assert(seq![value[0]] + value.skip(1) =~= value);
    }
}

/// A JSON reader gets back from `quote` the text that it was given, and reads on behind it.
pub proof fn quoted_text_reads_back(value: Seq<char>, rest: Seq<char>)
    ensures
        json_string(quoted(value) + rest) == Some((value, rest)),
{
    lemma_escaped_reads_back(value, rest);
    assert((quoted(value) + rest).skip(1) =~= escaped(value) + seq!['"'] + rest);
}

/// What `quote` writes has no control character in it, so that it stays on one line.
pub proof fn quoted_text_has_no_controls(value: Seq<char>, i: int)
    requires
        0 <= i < quoted(value).len(),
    ensures
        quoted(value)[i] as u32 >= 0x20,
{
    if 0 < i < quoted(value).len() - 1 {
        lemma_escaped_has_no_controls(value, i - 1);
    }
}

proof fn lemma_escape_has_no_controls(c: char, i: int)
    requires
        0 <= i < escape(c).len(),
    ensures
        escape(c)[i] as u32 >= 0x20,
{
    if escape(c).len() == 6 {
        let code = c as nat;
        assert(code < 32);
        assert(hex_value(digit(code / 16)) is Some);
        assert(hex_value(digit(code % 16)) is Some);
    }
}

proof fn lemma_escaped_has_no_controls(value: Seq<char>, i: int)
    requires
        0 <= i < escaped(value).len(),
    ensures
        escaped(value)[i] as u32 >= 0x20,
    decreases value.len(),
{
    let first = escape(value[0]);
    if i >= first.len() {
        lemma_escaped_has_no_controls(value.skip(1), i - first.len());
        assert(escaped(value)[i] == escaped(value.skip(1))[i - first.len()]);
    } else {
        assert(escaped(value)[i] == first[i]);
        lemma_escape_has_no_controls(value[0], i);
    }
}

/// A client gets from its call what the daemon answered, be it a payload or an error.
pub proof fn clients_get_what_was_answered(call_id: u64, outcome: Result<Payload, String>)
    ensures
        call_result(CallOutcome::Answered(reply_envelope(call_id, outcome))) == outcome_text(
            outcome,
        ),
        reply_envelope(call_id, outcome).call_id == call_id,
{
}

/// A command exits with status 0 exactly if the daemon did what it was asked.
pub proof fn exit_status_tells_success(command: Seq<char>, outcome: CallOutcome, version: Seq<char>)
    ensures
        run_step(command, Some(outcome), version) matches RunStepView::Print { code, .. } ==> (code
            == 0 <==> {
            ||| command == "status"@ && state_result(outcome) is Ok
            ||| command == "stop"@ && ack_result(outcome) is Ok
        }),
        command != "status"@ && command != "stop"@ ==> (run_step(command, Some(outcome), version)
            matches RunStepView::Complain { code, .. } && code == 2),
{
    reveal_strlit("status");
    reveal_strlit("stop");
    assert("status"@.len() != "stop"@.len());
}

/// The text that a label is put in front of stands at the end as it is.
pub open spec fn ends_with(text: Seq<char>, end: Seq<char>) -> bool {
    end.len() <= text.len() && text.skip(text.len() - end.len()) == end
}

/// A call that fails gives its caller the cause at the end of the error, behind the name of the
/// step that failed.
pub proof fn failed_calls_tell_their_cause(error: String, label: Seq<char>, outcome: CallOutcome)
    requires
        ({
            ||| outcome == CallOutcome::NoName(error) && label == "abstract name: "@
            ||| outcome == CallOutcome::NotRunning(error) && label == "daemon not running: "@
            ||| outcome == CallOutcome::WriteFailed(error) && label == "write: "@
            ||| outcome == CallOutcome::ReadFailed(error) && label == "read: "@
            ||| outcome == CallOutcome::Undecodable(error) && label == "decode: "@
        }),
    ensures
        call_result(outcome) matches Err(message) && ends_with(message, error@) && message.take(
            message.len() - error@.len(),
        ) == label,
{
    let message = label + error@;
    assert(message.skip(label.len() as int) =~= error@);
    assert(message.take(label.len() as int) =~= label);
    assert(call_result(outcome) == Err::<PayloadView, Seq<char>>(message));
}

/// Each command asks the daemon for one thing, once, and anything else is no command.
pub proof fn commands_ask_for_one_thing(command: Seq<char>, version: Seq<char>)
    ensures
        command == "status"@ ==> (run_step(command, None, version) matches RunStepView::Call(request)
            && request.command == Some(ClientCommand::SessionState) && request.call_id == 1),
        command == "stop"@ ==> (run_step(command, None, version) matches RunStepView::Call(request)
            && request.command == Some(ClientCommand::ClearRouting) && request.call_id == 1),
        command != "status"@ && command != "stop"@ ==> run_step(command, None, version) is Complain,
        forall|outcome: CallOutcome|
            !((#[trigger] run_step(command, Some(outcome), version)) is Call),
{
    reveal_strlit("status");
    reveal_strlit("stop");
    assert("status"@.len() != "stop"@.len());
}

} // verus!
