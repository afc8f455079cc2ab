//! The messages that the daemon and its clients exchange, as plain values.
use crate::text::texts;
use vstd::prelude::*;

verus! {

/// The transparent proxy part of a routing session.
#[derive(Debug, PartialEq, Eq)]
pub struct TproxySpec {
    pub route_table: u32,
    pub rule_priority: u32,
    pub fwmark: u32,
    pub mark_chains: Vec<String>,
}

/// Everything a routing session installs.
#[derive(Debug, PartialEq, Eq)]
pub struct RoutingSpec {
    pub tunnel_name: String,
    pub app_uid: u32,
    pub upstream_table: u32,
    pub ipv4_default_routes: Vec<String>,
    pub ipv6_default_routes: Vec<String>,
    pub rule_priority_start: u32,
    pub rule_priority_end: u32,
    pub app_tunnel_priority: u32,
    pub bypass_uids: Vec<u32>,
    pub dhcp_workaround_enabled: bool,
    pub dhcp_workaround_priority: u32,
    pub bypass_mark_enabled: bool,
    pub bypass_mark_chain: String,
    pub bypass_mark_fwmark: u32,
    pub tproxy: Option<TproxySpec>,
}

/// The children that the daemon can start.
#[derive(Clone, Copy, Debug, PartialEq, Eq, Structural)]
pub enum ChildKind {
    /// No kind that the daemon knows.
    Unset,
    Byedpi,
    Xray,
    Vkturn,
}

/// A request to start a child.
#[derive(Debug, PartialEq, Eq)]
pub struct SpawnChildCommand {
    /// The number that stands for the kind on the wire.
    pub kind: i32,
    /// The kind that the number stands for.
    pub known_kind: ChildKind,
    pub binary_path: String,
    pub args: Vec<String>,
    pub working_dir: String,
    pub classpath: String,
    pub lib_dir: String,
}

/// A child as the clients see it.
#[derive(Clone, Copy, Debug, PartialEq, Eq, Structural)]
pub struct ChildHandle {
    pub kind: i32,
    pub child_id: u64,
    pub pid: i32,
    pub running: bool,
}

/// What a client says of itself.
#[derive(Debug, PartialEq, Eq)]
pub struct HelloCommand {
    pub app_version: String,
    pub protocol_version: u32,
}

/// What a client asks for.
#[derive(Debug, PartialEq, Eq)]
pub enum ClientCommand {
    Hello(HelloCommand),
    /// Install a routing session, which has to be there.
    ApplyRouting(Option<RoutingSpec>),
    ClearRouting,
    SessionState,
    SpawnChild(SpawnChildCommand),
    /// Kill the child of this number.
    KillChild(u64),
    ReadCounters,
    ReadNetDev,
}

/// A request with the number that its answer carries.
#[derive(Debug, PartialEq, Eq)]
pub struct ClientEnvelope {
    pub call_id: u64,
    pub command: Option<ClientCommand>,
}

/// What the daemon says of itself.
#[derive(Debug, PartialEq, Eq)]
pub struct HelloReply {
    pub protocol_version: u32,
    pub min_supported: u32,
    pub module_version: String,
    pub caps: Vec<String>,
}

/// The state of the daemon.
#[derive(Debug, PartialEq, Eq)]
pub struct SessionState {
    pub routing_active: bool,
    pub orphaned: bool,
    pub tunnel_name: String,
    pub children: Vec<ChildHandle>,
    pub app_connected: bool,
    pub tproxy_mark_bytes: u64,
}

/// What a request that succeeded is answered.
#[derive(Debug, PartialEq, Eq)]
pub enum Payload {
    Hello(HelloReply),
    Ack,
    SessionState(SessionState),
    Child(ChildHandle),
    /// The bytes that the transparent proxy's chains counted.
    Counters(u64),
    /// The raw table of network devices.
    NetDev(String),
}

/// The body of an answer.
#[derive(Debug, PartialEq, Eq)]
pub enum Frame {
    Reply(Option<Payload>),
    /// The message of the error.
    Error(String),
}

/// An answer with the number of its request.
#[derive(Debug, PartialEq, Eq)]
pub struct DaemonEnvelope {
    pub call_id: u64,
    pub frame: Option<Frame>,
}

/// The texts of what the daemon says of itself.
pub struct HelloReplyView {
    pub protocol_version: u32,
    pub min_supported: u32,
    pub module_version: Seq<char>,
    pub caps: Seq<Seq<char>>,
}

impl View for HelloReply {
    type V = HelloReplyView;

    open spec fn view(&self) -> HelloReplyView {
        HelloReplyView {
            protocol_version: self.protocol_version,
            min_supported: self.min_supported,
            module_version: self.module_version@,
            caps: texts(self.caps@),
        }
    }
}

/// The texts of the state of the daemon.
pub struct SessionStateView {
    pub routing_active: bool,
    pub orphaned: bool,
    pub tunnel_name: Seq<char>,
    pub children: Seq<ChildHandle>,
    pub app_connected: bool,
    pub tproxy_mark_bytes: u64,
}

impl View for SessionState {
    type V = SessionStateView;

    open spec fn view(&self) -> SessionStateView {
        SessionStateView {
            routing_active: self.routing_active,
            orphaned: self.orphaned,
            tunnel_name: self.tunnel_name@,
            children: self.children@,
            app_connected: self.app_connected,
            tproxy_mark_bytes: self.tproxy_mark_bytes,
        }
    }
}

/// The texts of an answer.
pub enum PayloadView {
    Hello(HelloReplyView),
    Ack,
    SessionState(SessionStateView),
    Child(ChildHandle),
    Counters(u64),
    NetDev(Seq<char>),
}

impl View for Payload {
    type V = PayloadView;

    open spec fn view(&self) -> PayloadView {
        match *self {
            Payload::Hello(hello) => PayloadView::Hello(hello@),
            Payload::Ack => PayloadView::Ack,
            Payload::SessionState(state) => PayloadView::SessionState(state@),
            Payload::Child(handle) => PayloadView::Child(handle),
            Payload::Counters(bytes) => PayloadView::Counters(bytes),
            Payload::NetDev(content) => PayloadView::NetDev(content@),
        }
    }
}

/// The texts of an answer or of the error in its place.
pub open spec fn outcome_text(outcome: Result<Payload, String>) -> Result<PayloadView, Seq<char>> {
    match outcome {
        Ok(payload) => Ok(payload@),
        Err(message) => Err(message@),
    }
}

} // verus!
