//! What the daemon believes it installed, who may talk to it, and what it answers.
//!
//! Every connection is authenticated by the user number that the kernel reports for it, held
//! against that of the app. Root is accepted too: a user that can rewrite the daemon gains
//! nothing from talking to it.
//!
//! A session survives the client that asked for it. An app that disappears was almost always
//! killed for its memory, so the session is kept and marked as orphaned.
use crate::children::{
    are_handles, are_ids, launch_of, reaped, spawn_step, with_child, without_child, Children,
    ChildrenView, ExecOutcome, Launch, LaunchView, SpawnFacts, SpawnStep, SpawnStepView,
};
use crate::rootd::{
    outcome_text, ClientCommand, DaemonEnvelope, Frame, HelloCommand, HelloReply, HelloReplyView,
    Payload, PayloadView, RoutingSpec, SessionState, SessionStateView, SpawnChildCommand,
};
use crate::routing::{
    apply, apply_plan, apply_step, clear, clear_plan, counter_plan, counter_step,
    has_representable_step, installation, is_tool, priorities_representable, step_representable,
    total_bytes, try_read_tproxy_mark_bytes, ApplyStep, ApplyStepView, CounterStep, CounterStepView,
    Invocation, Op,
};
use crate::text::{push_args, signed_decimal, texts};
use vstd::prelude::*;

verus! {

broadcast use vstd::string::group_string_axioms;

/// The version of the protocol that the daemon speaks.
pub const PROTOCOL_VERSION: u32 = 2;

/// The oldest version that it still speaks. It moves only when semantics change, never when a
/// field is added.
pub const MIN_SUPPORTED: u32 = 1;

/// Who is at the other end of a connection.
#[derive(Clone, Copy, Debug, PartialEq, Eq, Structural)]
pub enum Peer {
    /// The app.
    App,
    /// Root, which is the module's own web page and command line.
    Root,
    /// Anybody else, who is refused.
    Stranger,
}

/// Who has a user number, if that of the app is `app_uid`.
pub open spec fn peer_of(uid: u32, app_uid: Option<u32>) -> Peer {
    if app_uid == Some(uid) {
        Peer::App
    } else if uid == 0 {
        Peer::Root
    } else {
        Peer::Stranger
    }
}

/// Tells who is at the other end of a connection.
pub fn identify(uid: u32, app_uid: Option<u32>) -> (peer: Peer)
    ensures
        peer == peer_of(uid, app_uid),
{
    match app_uid {
        Some(app) => if app == uid {
            return Peer::App;
        },
        None => {},
    }
    if uid == 0 {
        Peer::Root
    } else {
        Peer::Stranger
    }
}

/// What the daemon believes it installed.
pub struct Session {
    pub spec: Option<RoutingSpec>,
    /// Whether the app is gone from a session that is still up.
    pub orphaned: bool,
    pub children: Children,
    /// How many connections of the app there are.
    pub app_clients: u32,
}

/// Whether two sessions are the same.
pub open spec fn same_session(a: Session, b: Session) -> bool {
    &&& a.spec == b.spec
    &&& a.orphaned == b.orphaned
    &&& a.children@ == b.children@
    &&& a.app_clients == b.app_clients
}

/// A session with another number of connections of the app.
pub open spec fn only_clients(pre: Session, app_clients: int, post: Session) -> bool {
    &&& post.spec == pre.spec
    &&& post.children@ == pre.children@
    &&& post.app_clients == app_clients
}

/// Whether a session is the right one after a connection began: one of the app is counted, and
/// a session that outlived the app is its own again.
pub open spec fn connected(pre: Session, peer: Peer, post: Session) -> bool {
    if peer == Peer::App {
        only_clients(pre, pre.app_clients + 1, post) && !post.orphaned
    } else {
        same_session(pre, post)
    }
}

/// Whether the end of a connection leaves a session orphaned: it was the last one of the app,
/// and the session is up.
pub open spec fn leaves_orphan(pre: Session, peer: Peer) -> bool {
    peer == Peer::App && pre.app_clients <= 1 && pre.spec is Some
}

/// Whether a session is the right one after a connection ended.
pub open spec fn disconnected(pre: Session, peer: Peer, post: Session) -> bool {
    if peer == Peer::App {
        &&& only_clients(
            pre,
            if pre.app_clients > 0 {
                pre.app_clients - 1
            } else {
                0
            },
            post,
        )
        &&& post.orphaned == (pre.orphaned || leaves_orphan(pre, peer))
    } else {
        same_session(pre, post)
    }
}

impl Session {
    /// Only a session that is up, and from which all connections of the app are gone, is
    /// orphaned.
    pub open spec fn wf(&self) -> bool {
        &&& self.children.wf()
        &&& self.orphaned ==> self.spec is Some && self.app_clients == 0
    }

    /// A daemon that installed nothing.
    pub fn new() -> (session: Session)
        ensures
            session.wf(),
            session.spec is None,
            !session.orphaned,
            session.app_clients == 0,
            session.children@ == (ChildrenView { started: 0, running: Map::empty() }),
    {
        Session { spec: None, orphaned: false, children: Children::new(), app_clients: 0 }
    }

    /// Counts a connection. The app may be back for a session that outlived it.
    pub fn connect(&mut self, peer: Peer)
        requires
            old(self).wf(),
            peer == Peer::App ==> old(self).app_clients < u32::MAX,
        ensures
            final(self).wf(),
            connected(*old(self), peer, *final(self)),
    {
        if peer == Peer::App {
            self.app_clients = self.app_clients + 1;
            if self.spec.is_some() {
                self.orphaned = false;
            }
        }
    }

    /// Counts the end of a connection, and says whether it leaves the session orphaned. The
    /// routing stays up.
    pub fn disconnect(&mut self, peer: Peer) -> (orphaned: bool)
        requires
            old(self).wf(),
        ensures
            final(self).wf(),
            disconnected(*old(self), peer, *final(self)),
            orphaned == leaves_orphan(*old(self), peer),
    {
        if peer != Peer::App {
            return false;
        }
        if self.app_clients > 0 {
            self.app_clients = self.app_clients - 1;
        }
        if self.app_clients == 0 && self.spec.is_some() {
            self.orphaned = true;
            return true;
        }
        false
    }
}

/// The work on a request: its beginning, and then what came of each action in turn.
pub enum Work {
    /// A request came in.
    Begin(Option<ClientCommand>),
    /// So many commands of an installation were executed, the last of which exited with
    /// status 0 exactly if `last_ok`.
    Apply { spec: RoutingSpec, done: u128, last_ok: bool },
    /// So many commands of a teardown were executed.
    Clear { cleared: u64 },
    /// The children were killed and waited for.
    Killed,
    /// These listings of chains were made, for the state of the daemon or for its counters.
    Count { outputs: Vec<Option<Vec<u8>>>, for_state: bool },
    /// These children are alive, and so many bytes were counted.
    Polled { bytes: u64, alive: Vec<u64> },
    /// The file system was asked about a request for a child, and its program was perhaps
    /// started.
    Spawn { request: SpawnChildCommand, facts: SpawnFacts, outcome: ExecOutcome },
    /// The table of network devices was read, or this error came of it.
    NetDev(Result<String, String>),
}

/// What to do next for a request.
pub enum Action {
    /// Answer this.
    Finish(Result<Payload, String>),
    /// Execute a command of the installation: `Work::Apply` with one more done goes on.
    Apply { command: Invocation, spec: RoutingSpec, done: u128 },
    /// Execute a command of the teardown: `Work::Clear` with one more done goes on.
    Clear { command: Invocation, cleared: u64 },
    /// Kill these children and wait for them: `Work::Killed` goes on.
    Kill { ids: Vec<u64> },
    /// Execute a command: `Work::Count` with what it printed at the end, if it exited with
    /// status 0, goes on.
    List { command: Invocation, outputs: Vec<Option<Vec<u8>>>, for_state: bool },
    /// Find out which of these children are alive: `Work::Polled` goes on.
    Poll { bytes: u64, ids: Vec<u64> },
    /// Ask the file system about a request: `Work::Spawn` goes on.
    Inspect { request: SpawnChildCommand },
    /// Start a program: `Work::Spawn` with what came of it goes on.
    Exec { launch: Launch, request: SpawnChildCommand, facts: SpawnFacts },
    /// Read the table of network devices: `Work::NetDev` goes on.
    ReadNetDev,
    /// Give up: the sum of the counters has more than 64 bits.
    CounterOverflow,
}

/// Whether an action is an answer.
pub open spec fn answers(action: Action, outcome: Result<PayloadView, Seq<char>>) -> bool {
    action matches Action::Finish(given) && outcome_text(given) == outcome
}

/// What the daemon says of itself.
pub open spec fn hello_reply(version: Seq<char>) -> HelloReplyView {
    HelloReplyView {
        protocol_version: PROTOCOL_VERSION,
        min_supported: MIN_SUPPORTED,
        module_version: version,
        caps: seq!["routing"@, "children"@, "counters"@, "netdev"@],
    }
}

/// The chains that count the transparent proxy's bytes, if there are any.
pub open spec fn counting_chains(session: Session) -> Option<Seq<String>> {
    match session.spec {
        Some(spec) => match spec.tproxy {
            Some(tproxy) => Some(tproxy.mark_chains@),
            None => None,
        },
        None => None,
    }
}

/// Whether an action goes on after so many bytes were counted.
pub open spec fn counted(session: Session, bytes: nat, for_state: bool, action: Action) -> bool {
    if for_state {
        action matches Action::Poll { bytes: known, ids } && known == bytes && are_ids(
            ids@,
            session.children@,
        )
    } else {
        answers(action, Ok(PayloadView::Counters(bytes as u64)))
    }
}

/// Whether an action goes on with reading the counters after the listings `outputs`.
pub open spec fn counts(
    session: Session,
    outputs: Seq<Option<Vec<u8>>>,
    for_state: bool,
    action: Action,
) -> bool {
    if !for_state && session.spec is None {
        answers(action, Err("no active session"@))
    } else {
        match counting_chains(session) {
            None => counted(session, 0, for_state, action),
            Some(chains) => match counter_step(chains, outputs) {
                CounterStepView::Run(call) => {
                    &&& action matches Action::List { command, outputs: kept, for_state: kept_for }
                    &&& command@ == call
                    &&& kept@ == outputs
                    &&& kept_for == for_state
                },
                CounterStepView::Total(bytes) => if bytes > u64::MAX {
                    action == Action::CounterOverflow
                } else {
                    counted(session, bytes, for_state, action)
                },
            },
        }
    }
}

/// Whether an action goes on with an installation, and whether the session is the right one
/// after it: the new one when the installation is complete, and else the old one.
pub open spec fn applies(
    pre: Session,
    spec: RoutingSpec,
    done: u128,
    last_ok: bool,
    post: Session,
    action: Action,
) -> bool {
    match apply_step(spec, done as nat, last_ok) {
        ApplyStepView::Run(call) => {
            &&& action matches Action::Apply { command, spec: kept, done: kept_done }
            &&& command@ == call
            &&& kept == spec
            &&& kept_done == done
            &&& same_session(pre, post)
        },
        ApplyStepView::Finished(Ok(_)) => {
            &&& answers(action, Ok(PayloadView::Ack))
            &&& post.spec == Some(spec)
            &&& !post.orphaned
            &&& post.children@ == pre.children@
            &&& post.app_clients == pre.app_clients
        },
        ApplyStepView::Finished(Err(message)) => answers(action, Err(message)) && same_session(
            pre,
            post,
        ),
    }
}

/// Whether an action goes on with a teardown, and whether the session is the right one after
/// it: nothing is left of it, and no child either, when all commands were executed.
pub open spec fn clears(pre: Session, done: u64, post: Session, action: Action) -> bool {
    if pre.spec matches Some(spec) && done < clear_plan(spec).len() {
        &&& action matches Action::Clear { command, cleared: kept }
        &&& command@ == clear_plan(pre.spec->0)[done as int].call()
        &&& kept == done
        &&& same_session(pre, post)
    } else {
        &&& action matches Action::Kill { ids }
        &&& are_ids(ids@, pre.children@)
        &&& post.spec is None
        &&& !post.orphaned
        &&& post.children@ == (ChildrenView {
            started: pre.children@.started,
            running: Map::empty(),
        })
        &&& post.app_clients == pre.app_clients
    }
}

/// A session with other children.
pub open spec fn only_children(pre: Session, children: ChildrenView, post: Session) -> bool {
    &&& post.spec == pre.spec
    &&& post.orphaned == pre.orphaned
    &&& post.children@ == children
    &&& post.app_clients == pre.app_clients
}

/// Whether an action goes on with starting a child, and whether the session is the right one
/// after it: it has one more child exactly if the child runs.
pub open spec fn spawns(
    pre: Session,
    request: SpawnChildCommand,
    facts: SpawnFacts,
    outcome: ExecOutcome,
    post: Session,
    action: Action,
) -> bool {
    match spawn_step(pre.children@, request, facts, outcome) {
        SpawnStepView::Exec(launch) => {
            &&& action matches Action::Exec { launch: given, request: kept, facts: kept_facts }
            &&& given@ == launch
            &&& kept == request
            &&& kept_facts == facts
            &&& same_session(pre, post)
        },
        SpawnStepView::Running(handle) => {
            &&& answers(action, Ok(PayloadView::Child(handle)))
            &&& only_children(pre, with_child(pre.children@, handle), post)
        },
        SpawnStepView::Refused(message) => answers(action, Err(message)) && same_session(pre, post),
    }
}

/// The state that a session shows, apart from its children.
pub open spec fn shows(session: Session, bytes: u64, state: SessionStateView) -> bool {
    &&& state.routing_active == session.spec is Some
    &&& state.orphaned == session.orphaned
    &&& state.tunnel_name == (match session.spec {
        Some(spec) => spec.tunnel_name@,
        None => Seq::<char>::empty(),
    })
    &&& state.app_connected == (session.app_clients > 0)
    &&& state.tproxy_mark_bytes == bytes
}

/// Whether the children that are alive were found out rightly: the state is answered, with a
/// handle for each child, and those that exited are forgotten.
pub open spec fn reports(
    pre: Session,
    bytes: u64,
    alive: Seq<u64>,
    post: Session,
    action: Action,
) -> bool {
    &&& action matches Action::Finish(Ok(Payload::SessionState(state)))
    &&& shows(pre, bytes, state@)
    &&& are_handles(state.children@, pre.children@, alive)
    &&& only_children(pre, reaped(pre.children@, alive), post)
}

/// Whether an action is what a request calls for first, and whether the session is the right
/// one after it.
pub open spec fn begins(
    pre: Session,
    command: Option<ClientCommand>,
    version: Seq<char>,
    post: Session,
    action: Action,
) -> bool {
    match command {
        None => answers(action, Err("empty command"@)) && same_session(pre, post),
        Some(ClientCommand::Hello(_)) => answers(action, Ok(PayloadView::Hello(hello_reply(version))))
            && same_session(pre, post),
        Some(ClientCommand::ApplyRouting(None)) => answers(
            action,
            Err("apply_routing without a spec"@),
        ) && same_session(pre, post),
        Some(ClientCommand::ApplyRouting(Some(spec))) => applies(pre, spec, 0, true, post, action),
        Some(ClientCommand::ClearRouting) => clears(pre, 0, post, action),
        Some(ClientCommand::SessionState) => counts(pre, seq![], true, action) && same_session(
            pre,
            post,
        ),
        Some(ClientCommand::SpawnChild(request)) => action == (Action::Inspect { request })
            && same_session(pre, post),
        Some(ClientCommand::KillChild(child_id)) => {
            &&& only_children(pre, without_child(pre.children@, child_id), post)
            &&& if pre.children@.running.contains_key(child_id) {
                action matches Action::Kill { ids } && ids@ == seq![child_id]
            } else {
                answers(action, Ok(PayloadView::Ack))
            }
        },
        Some(ClientCommand::ReadCounters) => counts(pre, seq![], false, action) && same_session(
            pre,
            post,
        ),
        Some(ClientCommand::ReadNetDev) => action == Action::ReadNetDev && same_session(pre, post),
    }
}

/// Whether an action is what the work on a request calls for next, and whether the session is
/// the right one after it.
pub open spec fn dispatches(
    pre: Session,
    work: Work,
    version: Seq<char>,
    post: Session,
    action: Action,
) -> bool {
    match work {
        Work::Begin(command) => begins(pre, command, version, post, action),
        Work::Apply { spec, done, last_ok } => applies(pre, spec, done, last_ok, post, action),
        Work::Clear { cleared } => clears(pre, cleared, post, action),
        Work::Killed => answers(action, Ok(PayloadView::Ack)) && same_session(pre, post),
        Work::Count { outputs, for_state } => counts(pre, outputs@, for_state, action)
            && same_session(pre, post),
        Work::Polled { bytes, alive } => reports(pre, bytes, alive@, post, action),
        Work::Spawn { request, facts, outcome } => spawns(
            pre,
            request,
            facts,
            outcome,
            post,
            action,
        ),
        Work::NetDev(Ok(content)) => answers(action, Ok(PayloadView::NetDev(content@)))
            && same_session(pre, post),
        Work::NetDev(Err(error)) => answers(action, Err("read /proc/net/dev: "@ + error@))
            && same_session(pre, post),
    }
}

/// Whether the work on a request can be numbered: the rules of a routing session have
/// priorities of 32 bits, and there is a number left for a child.
pub open spec fn can_number(session: Session, work: Work) -> bool {
    match work {
        Work::Apply { spec, done, .. } => step_representable(spec, done as nat),
        Work::Spawn { outcome, .. } => outcome is Started ==> session.children@.started < u64::MAX,
        _ => true,
    }
}

/// Whether the work on a request can be numbered.
pub fn is_numberable(session: &Session, work: &Work) -> (numberable: bool)
    requires
        session.wf(),
    ensures
        numberable == can_number(*session, *work),
{
    match work {
        Work::Apply { spec, done, last_ok: _ } => has_representable_step(spec, *done),
        Work::Spawn { request: _, facts: _, outcome: ExecOutcome::Started(_) } => {
            session.children.has_number_left()
        },
        _ => true,
    }
}

/// Goes on with an installation.
fn dispatch_apply(session: &mut Session, spec: RoutingSpec, done: u128, last_ok: bool) -> (action:
    Action)
    requires
        old(session).wf(),
        step_representable(spec, done as nat),
    ensures
        final(session).wf(),
        applies(*old(session), spec, done, last_ok, *final(session), action),
{
    match apply(&spec, done, last_ok) {
        ApplyStep::Run(command) => Action::Apply { command, spec, done },
        ApplyStep::Finished(Ok(_)) => {
            session.spec = Some(spec);
            session.orphaned = false;
            Action::Finish(Ok(Payload::Ack))
        },
        ApplyStep::Finished(Err(message)) => Action::Finish(Err(message)),
    }
}

/// Goes on with a teardown.
fn dispatch_clear(session: &mut Session, done: u64) -> (action: Action)
    requires
        old(session).wf(),
    ensures
        final(session).wf(),
        clears(*old(session), done, *final(session), action),
{
    let next: Option<Invocation> = match &session.spec {
        Some(spec) => clear(spec, done),
        None => None,
    };
    match next {
        Some(command) => Action::Clear { command, cleared: done },
        None => {
            session.spec = None;
            session.orphaned = false;
            Action::Kill { ids: session.children.kill_all() }
        },
    }
}

/// Goes on after so many bytes were counted.
fn dispatch_counted(session: &Session, bytes: u64, for_state: bool) -> (action: Action)
    ensures
        counted(*session, bytes as nat, for_state, action),
{
    if for_state {
        Action::Poll { bytes, ids: session.children.ids() }
    } else {
        Action::Finish(Ok(Payload::Counters(bytes)))
    }
}

/// Goes on with reading the counters.
fn dispatch_count(session: &Session, outputs: Vec<Option<Vec<u8>>>, for_state: bool) -> (action:
    Action)
    ensures
        counts(*session, outputs@, for_state, action),
{
    if !for_state && session.spec.is_none() {
        return Action::Finish(Err("no active session".to_string()));
    }
    match &session.spec {
        Some(spec) => match &spec.tproxy {
            Some(tproxy) => match try_read_tproxy_mark_bytes(
                tproxy.mark_chains.as_slice(),
                outputs.as_slice(),
            ) {
                Some(CounterStep::Run(command)) => Action::List { command, outputs, for_state },
                Some(CounterStep::Total(bytes)) => dispatch_counted(session, bytes, for_state),
                None => Action::CounterOverflow,
            },
            None => dispatch_counted(session, 0, for_state),
        },
        None => dispatch_counted(session, 0, for_state),
    }
}

/// Goes on with starting a child.
fn dispatch_spawn(
    session: &mut Session,
    request: SpawnChildCommand,
    facts: SpawnFacts,
    outcome: ExecOutcome,
) -> (action: Action)
    requires
        old(session).wf(),
        outcome is Started ==> old(session).children@.started < u64::MAX,
    ensures
        final(session).wf(),
        spawns(*old(session), request, facts, outcome, *final(session), action),
{
    match session.children.spawn(&request, &facts, &outcome) {
        SpawnStep::Exec(launch) => Action::Exec { launch, request, facts },
        SpawnStep::Running(handle) => Action::Finish(Ok(Payload::Child(handle))),
        SpawnStep::Refused(message) => Action::Finish(Err(message)),
    }
}

/// Answers the state of the daemon.
fn dispatch_state(session: &mut Session, bytes: u64, alive: &Vec<u64>) -> (action: Action)
    requires
        old(session).wf(),
    ensures
        final(session).wf(),
        reports(*old(session), bytes, alive@, *final(session), action),
{
    let tunnel_name = match &session.spec {
        Some(spec) => spec.tunnel_name.clone(),
        None => String::new(),
    };
    let children = session.children.snapshot(alive.as_slice());
    Action::Finish(
        Ok(
            Payload::SessionState(
                SessionState {
                    routing_active: session.spec.is_some(),
                    orphaned: session.orphaned,
                    tunnel_name,
                    children,
                    app_connected: session.app_clients > 0,
                    tproxy_mark_bytes: bytes,
                },
            ),
        ),
    )
}

/// Answers what the daemon says of itself. It answers even when the versions disagree: the
/// client needs the numbers to tell which side is behind.
fn dispatch_hello(version: &str) -> (action: Action)
    ensures
        answers(action, Ok(PayloadView::Hello(hello_reply(version@)))),
{
    let mut caps: Vec<String> = Vec::new();
    push_args(&mut caps, &["routing", "children", "counters", "netdev"]);
    let hello = HelloReply {
        protocol_version: PROTOCOL_VERSION,
        min_supported: MIN_SUPPORTED,
        module_version: version.to_string(),
        caps,
    };
    assert(hello@.caps =~= hello_reply(version@).caps);
    Action::Finish(Ok(Payload::Hello(hello)))
}

/// Begins the work on a request.
fn dispatch_begin(session: &mut Session, command: Option<ClientCommand>, version: &str) -> (action:
    Action)
    requires
        old(session).wf(),
    ensures
        final(session).wf(),
        begins(*old(session), command, version@, *final(session), action),
{
    let command = match command {
        Some(command) => command,
        None => return Action::Finish(Err("empty command".to_string())),
    };
    match command {
        ClientCommand::Hello(_) => dispatch_hello(version),
        ClientCommand::ApplyRouting(None) => {
            Action::Finish(Err("apply_routing without a spec".to_string()))
        },
        ClientCommand::ApplyRouting(Some(spec)) => dispatch_apply(session, spec, 0, true),
        ClientCommand::ClearRouting => dispatch_clear(session, 0),
        ClientCommand::SessionState => dispatch_count(session, Vec::new(), true),
        ClientCommand::SpawnChild(request) => Action::Inspect { request },
        ClientCommand::KillChild(child_id) => {
            if session.children.kill(child_id) {
                let mut ids: Vec<u64> = Vec::new();
                ids.push(child_id);
                Action::Kill { ids }
            } else {
                Action::Finish(Ok(Payload::Ack))
            }
        },
        ClientCommand::ReadCounters => dispatch_count(session, Vec::new(), false),
        ClientCommand::ReadNetDev => Action::ReadNetDev,
    }
}

/// Goes on with the work on a request: says what to do next, and changes the session as the
/// request asks. `version` is that of the daemon.
pub fn dispatch(session: &mut Session, work: Work, version: &str) -> (action: Action)
    requires
        old(session).wf(),
        can_number(*old(session), work),
    ensures
        final(session).wf(),
        dispatches(*old(session), work, version@, *final(session), action),
{
    match work {
        Work::Begin(command) => dispatch_begin(session, command, version),
        Work::Apply { spec, done, last_ok } => dispatch_apply(session, spec, done, last_ok),
        Work::Clear { cleared } => dispatch_clear(session, cleared),
        Work::Killed => Action::Finish(Ok(Payload::Ack)),
        Work::Count { outputs, for_state } => dispatch_count(session, outputs, for_state),
        Work::Polled { bytes, alive } => dispatch_state(session, bytes, &alive),
        Work::Spawn { request, facts, outcome } => dispatch_spawn(session, request, facts, outcome),
        Work::NetDev(Ok(content)) => Action::Finish(Ok(Payload::NetDev(content))),
        Work::NetDev(Err(error)) => {
            let mut message = "read /proc/net/dev: ".to_string();
            message.push_str(error.as_str());
            Action::Finish(Err(message))
        },
    }
}

/// The answer to a request, with the number of the request.
pub open spec fn reply_envelope(call_id: u64, outcome: Result<Payload, String>) -> DaemonEnvelope {
    DaemonEnvelope {
        call_id,
        frame: Some(
            match outcome {
                Ok(payload) => Frame::Reply(Some(payload)),
                Err(message) => Frame::Error(message),
            },
        ),
    }
}

/// Puts the answer to a request together.
pub fn reply(call_id: u64, outcome: Result<Payload, String>) -> (envelope: DaemonEnvelope)
    ensures
        envelope == reply_envelope(call_id, outcome),
{
    let frame = match outcome {
        Ok(payload) => Frame::Reply(Some(payload)),
        Err(message) => Frame::Error(message),
    };
    DaemonEnvelope { call_id, frame: Some(frame) }
}

/// Nobody but the app and root is served, and only root is when the app is not installed.
pub proof fn strangers_are_refused(uid: u32, app_uid: Option<u32>)
    ensures
        peer_of(uid, app_uid) != Peer::Stranger <==> (uid == 0 || app_uid == Some(uid)),
        app_uid is None && uid != 0 ==> peer_of(uid, app_uid) == Peer::Stranger,
{
}

/// A request that is answered with an error leaves the session as it was.
pub proof fn refused_requests_change_nothing(
    pre: Session,
    work: Work,
    version: Seq<char>,
    post: Session,
    action: Action,
)
    requires
        dispatches(pre, work, version, post, action),
        action matches Action::Finish(outcome) && outcome is Err,
    ensures
        same_session(pre, post),
{
}

/// Whatever a client asks for, the daemon executes nothing but the tools of routing, and starts
/// nothing but a program that the rules on children allow.
pub proof fn executed_programs_are_known(
    pre: Session,
    work: Work,
    version: Seq<char>,
    post: Session,
    action: Action,
)
    requires
        dispatches(pre, work, version, post, action),
    ensures
        action matches Action::Apply { command, .. } ==> is_tool(command@.program),
        action matches Action::Clear { command, .. } ==> is_tool(command@.program),
        action matches Action::List { command, .. } ==> is_tool(command@.program),
        action matches Action::Exec { launch, request, facts } ==> launch_of(request, facts) == Ok::<
            LaunchView,
            Seq<char>,
        >(launch@),
{
}

/// An installation changes the session only where it succeeds: up to then, and where it fails,
/// the session is what it was.
pub proof fn installations_commit_at_the_end(
    pre: Session,
    spec: RoutingSpec,
    done: u128,
    last_ok: bool,
    post: Session,
    action: Action,
)
    requires
        applies(pre, spec, done, last_ok, post, action),
    ensures
        same_session(pre, post) || answers(action, Ok(PayloadView::Ack)),
        answers(action, Ok(PayloadView::Ack)) ==> post.spec == Some(spec),
{
}

/// A client that asks for an installation is answered what it comes to: as long as commands are
/// executed, the rest of the installation decides, and then the answer is its result.
pub proof fn installations_are_answered(
    pre: Session,
    spec: RoutingSpec,
    exits: spec_fn(nat) -> bool,
    done: u128,
    last_ok: bool,
    post: Session,
    action: Action,
)
    requires
        applies(pre, spec, done, last_ok, post, action),
        done > 0 ==> last_ok == exits((done - 1) as nat),
    ensures
        action is Apply ==> installation(spec, exits, done as nat) == installation(
            spec,
            exits,
            done as nat + 1,
        ),
        action is Apply || answers(
            action,
            match installation(spec, exits, done as nat) {
                Ok(_) => Ok(PayloadView::Ack),
                Err(message) => Err(message),
            },
        ),
{
}

/// Only the installation and the teardown of routing change what routing is up, and no request
/// changes who is connected.
pub proof fn other_requests_keep_the_routing(
    pre: Session,
    work: Work,
    version: Seq<char>,
    post: Session,
    action: Action,
)
    requires
        dispatches(pre, work, version, post, action),
        !(work is Apply),
        !(work is Clear),
        work matches Work::Begin(Some(command)) ==> !(command is ApplyRouting) && !(
        command is ClearRouting),
    ensures
        post.spec == pre.spec,
        post.orphaned == pre.orphaned,
        post.app_clients == pre.app_clients,
{
}

/// No request marks a session as orphaned or changes who is connected, and each keeps that only
/// a session that is up and has lost the app is orphaned.
pub proof fn requests_never_orphan(
    pre: Session,
    work: Work,
    version: Seq<char>,
    post: Session,
    action: Action,
)
    requires
        dispatches(pre, work, version, post, action),
        pre.orphaned ==> pre.spec is Some && pre.app_clients == 0,
    ensures
        post.orphaned ==> post.spec is Some && post.app_clients == 0,
        post.app_clients == pre.app_clients,
        post.orphaned ==> pre.orphaned,
{
}

/// What `requests_never_orphan` says of one step of the work on requests holds of any number of
/// them.
pub proof fn many_requests_never_orphan(
    sessions: Seq<Session>,
    works: Seq<Work>,
    version: Seq<char>,
    actions: Seq<Action>,
)
    requires
        sessions.len() > 0,
        works.len() == sessions.len() - 1,
        actions.len() == works.len(),
        forall|i: int|
            #![trigger works[i]]
            0 <= i < works.len() ==> dispatches(
                sessions[i],
                works[i],
                version,
                sessions[i + 1],
                actions[i],
            ),
        sessions[0].orphaned ==> sessions[0].spec is Some && sessions[0].app_clients == 0,
    ensures
        sessions.last().orphaned ==> sessions.last().spec is Some && sessions.last().app_clients
            == 0,
        sessions.last().app_clients == sessions[0].app_clients,
        sessions.last().orphaned ==> sessions[0].orphaned,
    decreases works.len(),
{
    if works.len() > 0 {
        let n = works.len() - 1;
        let fewer = works.drop_last();
        assert forall|i: int| #![trigger fewer[i]] 0 <= i < fewer.len() implies dispatches(
            sessions.drop_last()[i],
            fewer[i],
            version,
            sessions.drop_last()[i + 1],
            actions.drop_last()[i],
        ) by {
            assert(fewer[i] == works[i]);
        }
        many_requests_never_orphan(sessions.drop_last(), fewer, version, actions.drop_last());
        assert(works[n] == works.last());
        requests_never_orphan(sessions[n], works[n], version, sessions[n + 1], actions[n]);
    }
}

/// The routing of a session stays as it is when a client comes or goes. Whoever comes and goes
/// leaves the connections as they were.
pub proof fn sessions_outlive_their_clients(
    before: Session,
    peer: Peer,
    during: Session,
    after: Session,
)
    requires
        connected(before, peer, during),
        disconnected(during, peer, after),
    ensures
        during.spec == before.spec,
        after.spec == before.spec,
        after.children@ == before.children@,
        after.app_clients == before.app_clients,
        peer == Peer::App && before.app_clients == 0 ==> after.orphaned == before.spec is Some,
{
}

/// No state says that the app is connected to a session that is orphaned, and only a session
/// that is up is ever orphaned.
pub proof fn states_are_consistent(session: Session, bytes: u64, state: SessionStateView)
    requires
        session.wf(),
        shows(session, bytes, state),
    ensures
        !(state.orphaned && state.app_connected),
        state.orphaned ==> state.routing_active,
{
}

/// After a teardown nothing is up: the state says so, whatever came before.
pub proof fn teardown_leaves_nothing(
    pre: Session,
    done: u64,
    post: Session,
    action: Action,
    bytes: u64,
    state: SessionStateView,
)
    requires
        clears(pre, done, post, action),
        action is Kill,
        shows(post, bytes, state),
    ensures
        !state.routing_active,
        !state.orphaned,
        state.tunnel_name.len() == 0,
        post.children@.running.is_empty(),
        action matches Action::Kill { ids } && forall|id: u64| #[trigger]
            pre.children@.running.contains_key(id) ==> ids@.contains(id),
{
}

/// A peer is the app exactly if it has the app's number, and root exactly if it is not the app
/// and has root's.
pub proof fn peers_are_told_by_their_number(uid: u32, app_uid: Option<u32>)
    ensures
        peer_of(uid, app_uid) == Peer::App <==> app_uid == Some(uid),
        peer_of(uid, app_uid) == Peer::Root <==> uid == 0 && app_uid != Some(0u32),
{
}

/// The state shows the app as connected from its first connection to its last, whatever else
/// comes and goes.
pub proof fn connections_are_shown(
    before: Session,
    during: Session,
    after: Session,
    bytes: u64,
    shown: SessionStateView,
    left: SessionStateView,
)
    requires
        connected(before, Peer::App, during),
        shows(during, bytes, shown),
        disconnected(during, Peer::App, after),
        shows(after, bytes, left),
    ensures
        shown.app_connected,
        !shown.orphaned,
        shown.routing_active == before.spec is Some,
        left.app_connected == (before.app_clients > 0),
        left.routing_active == before.spec is Some,
        !left.app_connected && left.routing_active ==> left.orphaned,
{
}

/// A connection of root changes nothing that the state shows.
pub proof fn root_is_not_shown(before: Session, during: Session, after: Session)
    requires
        connected(before, Peer::Root, during),
        disconnected(during, Peer::Root, after),
    ensures
        same_session(before, during),
        same_session(before, after),
{
}

/// After an installation the state shows it: its routing is up under its own name, and not
/// orphaned. The children and the connections are as before.
pub proof fn installations_are_shown(
    pre: Session,
    spec: RoutingSpec,
    done: u128,
    last_ok: bool,
    post: Session,
    action: Action,
    bytes: u64,
    state: SessionStateView,
)
    requires
        applies(pre, spec, done, last_ok, post, action),
        answers(action, Ok(PayloadView::Ack)),
        shows(post, bytes, state),
    ensures
        state.routing_active,
        state.tunnel_name == spec.tunnel_name@,
        !state.orphaned,
        state.app_connected == (pre.app_clients > 0),
        state.tproxy_mark_bytes == bytes,
        post.children@ == pre.children@,
{
}

/// The answered state is that of the session when it was asked: its routing, its connections, the
/// bytes that were counted, and a handle for every child.
pub proof fn answered_states_are_true(
    pre: Session,
    bytes: u64,
    alive: Seq<u64>,
    post: Session,
    action: Action,
)
    requires
        reports(pre, bytes, alive, post, action),
    ensures
        action matches Action::Finish(Ok(Payload::SessionState(state))) && {
            &&& state.routing_active <==> pre.spec is Some
            &&& state.orphaned == pre.orphaned
            &&& pre.spec matches Some(spec) ==> state.tunnel_name@ == spec.tunnel_name@
            &&& pre.spec is None ==> state.tunnel_name@.len() == 0
            &&& state.app_connected <==> pre.app_clients > 0
            &&& state.tproxy_mark_bytes == bytes
            &&& are_handles(state.children@, pre.children@, alive)
        },
        post.spec == pre.spec,
{
}

/// The counters of a session with a transparent proxy are read from each of its chains with the
/// tool of each address family, and then summed up. Those of a session without one are 0.
pub proof fn counters_are_read_from_every_chain(
    session: Session,
    outputs: Seq<Option<Vec<u8>>>,
    for_state: bool,
    action: Action,
)
    requires
        counts(session, outputs, for_state, action),
        session.spec is Some,
    ensures
        session.spec->0.tproxy matches Some(tproxy) ==> {
            let chains = tproxy.mark_chains@;
            let n = chains.len();
            &&& outputs.len() < n ==> (action matches Action::List { command, .. } && command@
                == (Op::ChainList { v6: false, chain: chains[outputs.len() as int]@ }).call())
            &&& n <= outputs.len() < 2 * n ==> (action matches Action::List { command, .. }
                && command@ == (Op::ChainList { v6: true, chain: chains[outputs.len() - n]@ }).call())
            &&& 2 * n <= outputs.len() && total_bytes(outputs) <= u64::MAX ==> {
                &&& for_state ==> (action matches Action::Poll { bytes, .. } && bytes
                    == total_bytes(outputs))
                &&& !for_state ==> (action matches Action::Finish(Ok(Payload::Counters(bytes)))
                    && bytes == total_bytes(outputs))
            }
            &&& 2 * n <= outputs.len() && total_bytes(outputs) > u64::MAX ==> action
                is CounterOverflow
        },
        session.spec->0.tproxy is None ==> {
            &&& for_state ==> (action matches Action::Poll { bytes, .. } && bytes == 0)
            &&& !for_state ==> (action matches Action::Finish(Ok(Payload::Counters(bytes))) && bytes
                == 0)
        },
        action matches Action::List { outputs: kept, for_state: kept_for, .. } ==> kept@ == outputs
            && kept_for == for_state,
{
    if let Some(tproxy) = session.spec->0.tproxy {
        let chains = tproxy.mark_chains@;
        assert(counter_plan(chains).len() == 2 * chains.len());
    }
}

/// The state and the counters give the same number of bytes.
pub proof fn state_and_counters_agree(
    session: Session,
    outputs: Seq<Option<Vec<u8>>>,
    for_state: Action,
    for_counters: Action,
)
    requires
        session.spec is Some,
        counts(session, outputs, true, for_state),
        counts(session, outputs, false, for_counters),
    ensures
        for_counters matches Action::Finish(Ok(Payload::Counters(bytes))) ==> (for_state matches
            Action::Poll { bytes: known, .. } && known == bytes),
        for_state is List <==> for_counters is List,
{
}

/// Killing one child spares the others and the routing. It is killed exactly if it was there, and
/// acknowledged either way.
pub proof fn one_child_is_killed(
    pre: Session,
    child_id: u64,
    version: Seq<char>,
    post: Session,
    action: Action,
    other: u64,
)
    requires
        begins(pre, Some(ClientCommand::KillChild(child_id)), version, post, action),
    ensures
        !post.children@.running.contains_key(child_id),
        other != child_id ==> post.children@.running.contains_key(other)
            == pre.children@.running.contains_key(other) && post.children@.running[other]
            == pre.children@.running[other],
        post.spec == pre.spec,
        post.app_clients == pre.app_clients,
        pre.children@.running.contains_key(child_id) ==> (action matches Action::Kill { ids }
            && ids@ == seq![child_id]),
        !pre.children@.running.contains_key(child_id) ==> answers(action, Ok(PayloadView::Ack)),
{
}

/// What was read of the network devices is answered as it is, and a failure with its cause.
pub proof fn device_tables_are_passed_on(
    pre: Session,
    read: Result<String, String>,
    version: Seq<char>,
    post: Session,
    action: Action,
)
    requires
        dispatches(pre, Work::NetDev(read), version, post, action),
    ensures
        read matches Ok(content) ==> (action matches Action::Finish(Ok(Payload::NetDev(given)))
            && given@ == content@),
        read matches Err(error) ==> (action matches Action::Finish(Err(message)) && message@
            == "read /proc/net/dev: "@ + error@),
        same_session(pre, post),
{
}

/// Every client is told the daemon's version and what it can do, whatever version it has itself.
pub proof fn hello_is_always_answered(
    pre: Session,
    hello: HelloCommand,
    version: Seq<char>,
    post: Session,
    action: Action,
)
    requires
        begins(pre, Some(ClientCommand::Hello(hello)), version, post, action),
    ensures
        action matches Action::Finish(Ok(Payload::Hello(reply))) && {
            &&& reply.protocol_version == 2
            &&& reply.min_supported == 1
            &&& reply.module_version@ == version
            &&& texts(reply.caps@) == seq!["routing"@, "children"@, "counters"@, "netdev"@]
        },
        same_session(pre, post),
{
}

/// A teardown executes the plan of the session that is up, command by command, and then kills the
/// children, each of them.
pub proof fn teardowns_follow_the_plan(
    pre: Session,
    spec: RoutingSpec,
    done: u64,
    post: Session,
    action: Action,
    id: u64,
)
    requires
        clears(pre, done, post, action),
        pre.spec == Some(spec),
    ensures
        done < clear_plan(spec).len() ==> (action matches Action::Clear { command, cleared }
            && cleared == done && command@ == clear_plan(spec)[done as int].call()) && post.spec
            == pre.spec,
        done >= clear_plan(spec).len() ==> (action matches Action::Kill { ids } && (ids@.contains(id)
            <==> pre.children@.running.contains_key(id))) && post.spec is None,
{
}

/// A child that runs is among the children of the session under the number that is answered, and
/// the others are still there. One that is refused or not yet started is not.
pub proof fn started_children_are_kept(
    pre: Session,
    request: SpawnChildCommand,
    facts: SpawnFacts,
    outcome: ExecOutcome,
    post: Session,
    action: Action,
    other: u64,
)
    requires
        spawns(pre, request, facts, outcome, post, action),
    ensures
        action matches Action::Finish(Ok(payload)) ==> (payload matches Payload::Child(handle) && {
            &&& outcome is Started
            &&& handle.kind == request.kind
            &&& post.children@.running.contains_key(handle.child_id)
            &&& post.children@.running[handle.child_id].kind == handle.kind
            &&& post.children@.running[handle.child_id].pid == handle.pid
            &&& other != handle.child_id ==> post.children@.running.contains_key(other)
                == pre.children@.running.contains_key(other)
        }),
        !(action matches Action::Finish(Ok(_))) ==> post.children@ == pre.children@,
        outcome is Started && launch_of(request, facts) is Ok ==> (action matches Action::Finish(
            given,
        ) && given is Ok),
{
}

/// Whoever leaves last leaves a session orphaned that is up: the count of the app's connections
/// goes down by one, and the session is reported as orphaned exactly if none is left.
pub proof fn last_departure_orphans(pre: Session, post: Session)
    requires
        disconnected(pre, Peer::App, post),
    ensures
        pre.app_clients > 0 ==> post.app_clients == pre.app_clients - 1,
        pre.app_clients == 0 ==> post.app_clients == 0,
        leaves_orphan(pre, Peer::App) <==> post.app_clients == 0 && pre.spec is Some,
        post.app_clients == 0 && pre.spec is Some ==> post.orphaned,
        !leaves_orphan(pre, Peer::Root),
{
}

/// What a request asks for first is about that request: the spec of an installation is kept
/// and its first command executed, a child's request is handed on as it is, and what needs no
/// work is answered at once.
pub proof fn requests_begin_their_own_work(
    pre: Session,
    command: ClientCommand,
    version: Seq<char>,
    post: Session,
    action: Action,
)
    requires
        begins(pre, Some(command), version, post, action),
    ensures
        command matches ClientCommand::ApplyRouting(Some(spec)) ==> (action matches Action::Apply {
            command: first,
            spec: kept,
            done,
        } && kept == spec && done == 0 && first@ == clear_plan(spec)[0].call()),
        command matches ClientCommand::ApplyRouting(None) ==> answers(
            action,
            Err("apply_routing without a spec"@),
        ),
        command matches ClientCommand::SpawnChild(request) ==> (action matches Action::Inspect {
            request: kept,
        } && kept == request),
        command is ReadNetDev ==> action is ReadNetDev,
        command is SessionState ==> counts(pre, seq![], true, action),
        command is ReadCounters ==> counts(pre, seq![], false, action),
        command is ClearRouting ==> clears(pre, 0, post, action),
        !(command is ClearRouting) && !(command is KillChild) ==> same_session(pre, post),
{
    if let ClientCommand::ApplyRouting(Some(spec)) = command {
        assert(apply_plan(spec)[0].op == clear_plan(spec)[0]);
    }
}

/// An installation goes on with the same spec and the next command of its plan.
pub proof fn installations_go_on(
    pre: Session,
    spec: RoutingSpec,
    done: u128,
    last_ok: bool,
    post: Session,
    action: Action,
)
    requires
        applies(pre, spec, done, last_ok, post, action),
        action is Apply,
    ensures
        action matches Action::Apply { command, spec: kept, done: count } && kept == spec && count
            == done && done < apply_plan(spec).len() && command@
            == apply_plan(spec)[done as int].op.call(),
{
}

/// A child is started with what was asked and found out for it.
pub proof fn starts_go_on(
    pre: Session,
    request: SpawnChildCommand,
    facts: SpawnFacts,
    outcome: ExecOutcome,
    post: Session,
    action: Action,
)
    requires
        spawns(pre, request, facts, outcome, post, action),
    ensures
        action matches Action::Exec { launch, request: kept, facts: known } ==> kept == request
            && known == facts && launch_of(request, facts) == Ok::<LaunchView, Seq<char>>(launch@),
        outcome is NotYet && launch_of(request, facts) is Ok ==> action is Exec,
        launch_of(request, facts) matches Err(message) ==> answers(action, Err(message)),
        outcome matches ExecOutcome::Failed(error) ==> (launch_of(request, facts) is Ok ==> answers(
            action,
            Err("spawn kind "@ + signed_decimal(request.kind as int) + ": "@ + error@),
        )),
{
}

/// When the state is asked for, every child is looked after, and no session needs to be up for
/// that. The counters need one.
pub proof fn every_child_is_looked_after(
    session: Session,
    outputs: Seq<Option<Vec<u8>>>,
    action: Action,
    id: u64,
)
    requires
        counts(session, outputs, true, action),
    ensures
        action matches Action::Poll { ids, .. } ==> (ids@.contains(id)
            <==> session.children@.running.contains_key(id)),
        session.spec is None ==> (action matches Action::Poll { bytes, .. } && bytes == 0),
{
}

/// The counters of a daemon without a session are an error.
pub proof fn counters_need_a_session(
    session: Session,
    outputs: Seq<Option<Vec<u8>>>,
    action: Action,
)
    requires
        counts(session, outputs, false, action),
        session.spec is None,
    ensures
        answers(action, Err("no active session"@)),
{
}

/// All work can be numbered but the end of an installation whose priorities cannot, and a child
/// that no number is left for.
pub proof fn most_work_can_be_numbered(session: Session, work: Work)
    requires
        work matches Work::Apply { spec, .. } ==> priorities_representable(spec),
        session.children@.started < u64::MAX,
    ensures
        can_number(session, work),
{
}

/// A teardown kills the children even where no routing is up, and is acknowledged when they are
/// gone.
pub proof fn children_go_without_routing(
    pre: Session,
    done: u64,
    post: Session,
    action: Action,
    id: u64,
)
    requires
        clears(pre, done, post, action),
        pre.spec is None,
    ensures
        action matches Action::Kill { ids } && (ids@.contains(id)
            <==> pre.children@.running.contains_key(id)),
        !post.children@.running.contains_key(id),
        post.children@.started == pre.children@.started,
        post.app_clients == pre.app_clients,
{
}

/// Killing children is acknowledged, and changes nothing more.
pub proof fn killing_is_acknowledged(
    pre: Session,
    version: Seq<char>,
    post: Session,
    action: Action,
)
    requires
        dispatches(pre, Work::Killed, version, post, action),
    ensures
        answers(action, Ok(PayloadView::Ack)),
        same_session(pre, post),
{
}

} // verus!
