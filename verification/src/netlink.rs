//! What the kernel says over a route socket: which messages report a change worth acting on,
//! and the default routes that a dump of the routing table lists.
//!
//! A buffer from the socket is a row of messages, each with a length of its own, and a route
//! message is a row of attributes behind a fixed part. Both are read with every length held
//! against what is there, so a buffer that is cut off or malformed ends the reading early and
//! never goes beyond its end. Numbers have the byte order of the machine.
use crate::addr::{ipv4_string, ipv4_text, ipv6_string, ipv6_text};
use crate::text::{
    begins_with, decimal, decode, first_at, lemma_first_at, push_decimal, same_text, text_of,
    texts,
};
use vstd::endian::{endianness, Endian};
use vstd::prelude::*;
use vstd::slice::slice_subrange;

verus! {

broadcast use vstd::string::group_string_axioms;

pub const RTM_NEWLINK: u16 = 16;

pub const RTM_DELLINK: u16 = 17;

pub const RTM_NEWADDR: u16 = 20;

pub const RTM_DELADDR: u16 = 21;

pub const RTM_NEWROUTE: u16 = 24;

pub const RTM_DELROUTE: u16 = 25;

pub const RTM_GETROUTE: u16 = 26;

pub const NLMSG_ERROR: u16 = 2;

pub const NLMSG_DONE: u16 = 3;

pub const NLM_F_REQUEST: u16 = 0x001;

pub const NLM_F_DUMP: u16 = 0x300;

pub const RTA_OIF: u16 = 4;

pub const RTA_GATEWAY: u16 = 5;

pub const RTA_PRIORITY: u16 = 6;

pub const RTA_TABLE: u16 = 15;

pub const RT_TABLE_MAIN: u32 = 254;

pub const RTMGRP_LINK: u32 = 0x1;

pub const RTMGRP_IPV4_IFADDR: u32 = 0x10;

pub const RTMGRP_IPV4_ROUTE: u32 = 0x40;

pub const RTMGRP_IPV6_IFADDR: u32 = 0x100;

pub const RTMGRP_IPV6_ROUTE: u32 = 0x400;

/// The length of a message's header.
pub const NLMSG_HDR_LEN: usize = 16;

/// The length of the fixed part of a route message.
pub const RTMSG_LEN: usize = 12;

/// The length of an attribute's header.
pub const RTATTR_HDR_LEN: usize = 4;

/// `libc::AF_INET`, the address family of IPv4, which is 2 on Linux and Android, the systems
/// that have route sockets.
#[verifier::external_body]
fn af_inet() -> (family: i32)
    ensures
        family == 2,
{
    libc::AF_INET
}

/// `libc::AF_INET6`, the address family of IPv6, which is 10 on Linux and Android, the systems
/// that have route sockets.
#[verifier::external_body]
fn af_inet6() -> (family: i32)
    ensures
        family == 10,
{
    libc::AF_INET6
}

/// The number of 16 bits that two bytes hold in the byte order of the machine.
pub open spec fn native_u16(bytes: Seq<u8>) -> u16 {
    match endianness() {
        Endian::Little => (bytes[0] + 0x100 * bytes[1]) as u16,
        Endian::Big => (bytes[1] + 0x100 * bytes[0]) as u16,
    }
}

/// The number of 32 bits that four bytes hold in the byte order of the machine.
pub open spec fn native_u32(bytes: Seq<u8>) -> u32 {
    match endianness() {
        Endian::Little => (bytes[0] + 0x100 * bytes[1] + 0x1_0000 * bytes[2] + 0x100_0000
            * bytes[3]) as u32,
        Endian::Big => (bytes[3] + 0x100 * bytes[2] + 0x1_0000 * bytes[1] + 0x100_0000
            * bytes[0]) as u32,
    }
}

/// `u16::from_ne_bytes` reads a number in the byte order of the machine.
#[verifier::external_body]
fn u16_from_ne(bytes: [u8; 2]) -> (number: u16)
    ensures
        number == native_u16(bytes@),
{
    u16::from_ne_bytes(bytes)
}

/// `u32::from_ne_bytes` reads a number in the byte order of the machine.
#[verifier::external_body]
fn u32_from_ne(bytes: [u8; 4]) -> (number: u32)
    ensures
        number == native_u32(bytes@),
{
    u32::from_ne_bytes(bytes)
}

/// `u16::to_ne_bytes` writes a number in the byte order of the machine: the bytes that read
/// back as the number.
#[verifier::external_body]
fn u16_to_ne(number: u16) -> (bytes: [u8; 2])
    ensures
        native_u16(bytes@) == number,
{
    number.to_ne_bytes()
}

/// `u32::to_ne_bytes` writes a number in the byte order of the machine: the bytes that read
/// back as the number.
#[verifier::external_body]
fn u32_to_ne(number: u32) -> (bytes: [u8; 4])
    ensures
        native_u32(bytes@) == number,
{
    number.to_ne_bytes()
}

/// A length rounded up to the next multiple of four.
pub open spec fn aligned(len: nat) -> nat {
    (len + 3) / 4 * 4
}

/// A message of the kernel.
pub struct Message {
    pub kind: u16,
    pub payload: Seq<u8>,
}

/// Whether a whole message stands at the beginning of a buffer.
pub open spec fn has_message(data: Seq<u8>) -> bool {
    data.len() >= NLMSG_HDR_LEN && NLMSG_HDR_LEN <= native_u32(data.take(4)) <= data.len()
}

/// The message at the beginning of a buffer.
pub open spec fn first_message(data: Seq<u8>) -> Message {
    Message {
        kind: native_u16(data.subrange(4, 6)),
        payload: data.subrange(NLMSG_HDR_LEN as int, native_u32(data.take(4)) as int),
    }
}

/// What follows the first `len` bytes, rounded up. Nothing does when the padding is missing.
pub open spec fn after(data: Seq<u8>, len: nat) -> Seq<u8> {
    if aligned(len) <= data.len() {
        data.skip(aligned(len) as int)
    } else {
        seq![]
    }
}

/// The messages of a buffer, up to the first one that is not whole.
pub open spec fn messages(data: Seq<u8>) -> Seq<Message>
    decreases data.len(),
{
    if has_message(data) {
        seq![first_message(data)] + messages(after(data, native_u32(data.take(4)) as nat))
    } else {
        seq![]
    }
}

/// An attribute of a route message.
pub struct Attribute {
    pub kind: u16,
    pub value: Seq<u8>,
}

/// Whether a whole attribute stands at the beginning.
pub open spec fn has_attribute(data: Seq<u8>) -> bool {
    data.len() >= RTATTR_HDR_LEN && RTATTR_HDR_LEN <= native_u16(data.take(2)) <= data.len()
}

/// The attribute at the beginning.
pub open spec fn first_attribute(data: Seq<u8>) -> Attribute {
    Attribute {
        kind: native_u16(data.subrange(2, 4)),
        value: data.subrange(RTATTR_HDR_LEN as int, native_u16(data.take(2)) as int),
    }
}

/// The attributes in a row of them, up to the first one that is not whole.
pub open spec fn attribute_list(data: Seq<u8>) -> Seq<Attribute>
    decreases data.len(),
{
    if has_attribute(data) {
        seq![first_attribute(data)] + attribute_list(after(data, native_u16(data.take(2)) as nat))
    } else {
        seq![]
    }
}

/// The value of the last attribute of a kind.
pub open spec fn last_value(list: Seq<Attribute>, kind: u16) -> Option<Seq<u8>>
    decreases list.len(),
{
    if list.len() == 0 {
        None
    } else if list.last().kind == kind {
        Some(list.last().value)
    } else {
        last_value(list.drop_last(), kind)
    }
}

/// The number that an attribute's value holds, if it is long enough for one.
pub open spec fn number_in(value: Seq<u8>) -> Option<u32> {
    if value.len() >= 4 {
        Some(native_u32(value.take(4)))
    } else {
        None
    }
}

/// The number in the last attribute of a kind.
pub open spec fn last_number(list: Seq<Attribute>, kind: u16) -> Option<u32> {
    match last_value(list, kind) {
        Some(value) => number_in(value),
        None => None,
    }
}

/// The table of a route: the last attribute that names one, or else what the fixed part says.
/// A table above 255 does not fit there.
pub open spec fn table_of(list: Seq<Attribute>, fixed: u8) -> u32
    decreases list.len(),
{
    if list.len() == 0 {
        fixed as u32
    } else if list.last().kind == RTA_TABLE && list.last().value.len() >= 4 {
        native_u32(list.last().value.take(4))
    } else {
        table_of(list.drop_last(), fixed)
    }
}

/// The attributes of a route message.
pub open spec fn route_attributes(payload: Seq<u8>) -> Seq<Attribute> {
    attribute_list(payload.skip(RTMSG_LEN as int))
}

/// Whether a route message is about a default route.
pub open spec fn is_default(payload: Seq<u8>) -> bool {
    payload.len() >= RTMSG_LEN && payload[1] == 0
}

/// The table that a route message is about.
pub open spec fn route_table(payload: Seq<u8>) -> u32 {
    table_of(route_attributes(payload), payload[4])
}

/// Whether a route message is about a default route in a table that is not to be ignored.
pub open spec fn is_watched(payload: Seq<u8>, ignored: Seq<u32>) -> bool {
    is_default(payload) && !ignored.contains(route_table(payload))
}

/// Whether a message reports a change worth acting on: a link or an address that came or
/// went, or a default route that is watched.
pub open spec fn is_relevant(message: Message, ignored: Seq<u32>) -> bool {
    ||| message.kind == RTM_NEWLINK
    ||| message.kind == RTM_DELLINK
    ||| message.kind == RTM_NEWADDR
    ||| message.kind == RTM_DELADDR
    ||| (message.kind == RTM_NEWROUTE || message.kind == RTM_DELROUTE) && is_watched(
        message.payload,
        ignored,
    )
}

/// The bytes that follow the first `len`, rounded up to a multiple of four.
fn rest_after<'a>(data: &'a [u8], len: usize) -> (rest: &'a [u8])
    requires
        len <= data@.len(),
    ensures
        rest@ == after(data@, len as nat),
{
    let total: usize = data.len();
    let over: usize = len % 4;
    let padding: usize = if over == 0 {
        0
    } else {
        4 - over
    };
    if padding > total - len {
        let rest = slice_subrange(data, total, total);
        assert(rest@ =~= after(data@, len as nat));
        rest
    } else {
        let rest = slice_subrange(data, len + padding, total);
        assert(rest@ =~= after(data@, len as nat));
        rest
    }
}

/// The number of 16 bits at `at`.
fn u16_at(data: &[u8], at: usize) -> (number: u16)
    requires
        at + 2 <= data@.len(),
    ensures
        number == native_u16(data@.subrange(at as int, at + 2)),
{
    let bytes: [u8; 2] = [data[at], data[at + 1]];
    assert(bytes@ =~= data@.subrange(at as int, at + 2));
    u16_from_ne(bytes)
}

/// The number of 32 bits at the beginning, if there is one.
pub fn read_u32(bytes: &[u8]) -> (number: Option<u32>)
    ensures
        number == number_in(bytes@),
{
    if bytes.len() < 4 {
        return None;
    }
    let four: [u8; 4] = [bytes[0], bytes[1], bytes[2], bytes[3]];
    assert(four@ =~= bytes@.take(4));
    Some(u32_from_ne(four))
}

/// The messages of a buffer, one after the other.
pub struct Messages<'a> {
    pub data: &'a [u8],
}

/// A message in a buffer.
pub struct MessageRef<'a> {
    pub kind: u16,
    pub payload: &'a [u8],
}

impl<'a> View for MessageRef<'a> {
    type V = Message;

    open spec fn view(&self) -> Message {
        Message { kind: self.kind, payload: self.payload@ }
    }
}

impl<'a> Messages<'a> {
    /// Takes the next message out, or nothing when none is left that is whole.
    pub fn next(&mut self) -> (message: Option<MessageRef<'a>>)
        ensures
            message is Some == (messages(old(self).data@).len() > 0),
            message matches Some(first) ==> {
                &&& first@ == messages(old(self).data@)[0]
                &&& final(self).data@ == after(
                    old(self).data@,
                    native_u32(old(self).data@.take(4)) as nat,
                )
                &&& messages(final(self).data@) == messages(old(self).data@).drop_first()
                &&& final(self).data@.len() < old(self).data@.len()
            },
            message is None ==> final(self).data@ == old(self).data@,
    {
        let data = self.data;
        let ghost before = data@;
        if data.len() < NLMSG_HDR_LEN {
            return None;
        }
        let len: usize = match read_u32(data) {
            Some(len) => len as usize,
            None => return None,
        };
        if len < NLMSG_HDR_LEN || len > data.len() {
            return None;
        }
        let kind: u16 = u16_at(data, 4);
        let payload = slice_subrange(data, NLMSG_HDR_LEN, len);
        self.data = rest_after(data, len);
        assert(messages(before).drop_first() =~= messages(after(before, len as nat)));
        Some(MessageRef { kind, payload })
    }
}

/// The attributes of a route message, one after the other.
pub struct Attributes<'a> {
    pub data: &'a [u8],
}

/// An attribute in a route message.
pub struct AttrRef<'a> {
    pub kind: u16,
    pub value: &'a [u8],
}

impl<'a> View for AttrRef<'a> {
    type V = Attribute;

    open spec fn view(&self) -> Attribute {
        Attribute { kind: self.kind, value: self.value@ }
    }
}

/// The attributes in a row of them.
pub fn attributes<'a>(data: &'a [u8]) -> (list: Attributes<'a>)
    ensures
        list.data@ == data@,
{
    Attributes { data }
}

impl<'a> Attributes<'a> {
    /// Takes the next attribute out, or nothing when none is left that is whole.
    pub fn next(&mut self) -> (attribute: Option<AttrRef<'a>>)
        ensures
            attribute is Some == (attribute_list(old(self).data@).len() > 0),
            attribute matches Some(first) ==> {
                &&& first@ == attribute_list(old(self).data@)[0]
                &&& final(self).data@ == after(
                    old(self).data@,
                    native_u16(old(self).data@.take(2)) as nat,
                )
                &&& attribute_list(final(self).data@) == attribute_list(
                    old(self).data@,
                ).drop_first()
                &&& final(self).data@.len() < old(self).data@.len()
            },
            attribute is None ==> final(self).data@ == old(self).data@,
    {
        let data = self.data;
        let ghost before = data@;
        if data.len() < RTATTR_HDR_LEN {
            return None;
        }
        assert(before.subrange(0, 2) =~= before.take(2));
        let len: usize = u16_at(data, 0) as usize;
        if len < RTATTR_HDR_LEN || len > data.len() {
            return None;
        }
        let kind: u16 = u16_at(data, 2);
        let value = slice_subrange(data, RTATTR_HDR_LEN, len);
        self.data = rest_after(data, len);
        assert(attribute_list(before).drop_first() =~= attribute_list(after(before, len as nat)));
        Some(AttrRef { kind, value })
    }
}

/// Whether a table is among those to ignore.
fn is_ignored(tables: &[u32], table: u32) -> (ignored: bool)
    ensures
        ignored == tables@.contains(table),
{
    let mut i: usize = 0;
    while i < tables.len()
        invariant
            i <= tables@.len(),
            forall|j: int| 0 <= j < i ==> tables@[j] != table,
        decreases tables@.len() - i,
    {
        if tables[i] == table {
            return true;
        }
        i = i + 1;
    }
    false
}

/// True when a route message is a default route change in a table that is not ignored. Only a
/// default that goes away or appears changes which uplink is live.
pub fn default_route_change_is_watched(payload: &[u8], ignore_tables: &[u32]) -> (watched: bool)
    ensures
        watched == is_watched(payload@, ignore_tables@),
{
    if payload.len() < RTMSG_LEN || payload[1] != 0 {
        return false;
    }
    let mut table: u32 = payload[4] as u32;
    let mut list = attributes(slice_subrange(payload, RTMSG_LEN, payload.len()));
    assert(payload@.subrange(RTMSG_LEN as int, payload@.len() as int) =~= payload@.skip(
        RTMSG_LEN as int,
    ));
    let ghost all = route_attributes(payload@);
    let ghost mut n: int = 0;
    assert(all.skip(0) =~= all);
    loop
        invariant_except_break
            0 <= n <= all.len(),
            attribute_list(list.data@) == all.skip(n),
            table == table_of(all.take(n), payload@[4]),
        invariant
            payload@.len() >= RTMSG_LEN,
        ensures
            table == table_of(all, payload@[4]),
        decreases list.data@.len(),
    {
        match list.next() {
            Some(attr) => {
                proof {
                    assert(all.skip(n).drop_first() =~= all.skip(n + 1));
                    assert(all.take(n + 1).drop_last() =~= all.take(n));
                    assert(all.take(n + 1).last() == attr@);
                }
                if attr.kind == RTA_TABLE {
                    match read_u32(attr.value) {
                        Some(value) => {
                            table = value;
                        },
                        None => {},
                    }
                }
                proof {
                    n = n + 1;
                }
            },
            None => {
                assert(all.take(n) =~= all);
                break ;
            },
        }
    }
    !is_ignored(ignore_tables, table)
}

/// Whether a buffer reports a change worth acting on. Default route changes in
/// `ignore_tables` are skipped: those are the tables that the daemon writes itself, and
/// reacting to its own changes would loop forever.
pub fn any_message_relevant(data: &[u8], ignore_tables: &[u32]) -> (relevant: bool)
    ensures
        relevant == reports_change(data@, ignore_tables@),
{
    let mut list = Messages { data };
    let ghost all = messages(data@);
    let ghost mut n: int = 0;
    assert(all.skip(0) =~= all);
    loop
        invariant
            all == messages(data@),
            0 <= n <= all.len(),
            messages(list.data@) == all.skip(n),
            forall|i: int| 0 <= i < n ==> !is_relevant(#[trigger] all[i], ignore_tables@),
        decreases list.data@.len(),
    {
        match list.next() {
            Some(message) => {
                assert(message@ == all[n]);
                let kind: u16 = message.kind;
                if kind == RTM_NEWLINK || kind == RTM_DELLINK || kind == RTM_NEWADDR || kind
                    == RTM_DELADDR {
                    return true;
                }
                if kind == RTM_NEWROUTE || kind == RTM_DELROUTE {
                    if default_route_change_is_watched(message.payload, ignore_tables) {
                        return true;
                    }
                }
                proof {
                    assert(all.skip(n).drop_first() =~= all.skip(n + 1));
                    n = n + 1;
                }
            },
            None => {
                return false;
            },
        }
    }
}

/// The text of an address of a family: four bytes or more hold an IPv4 address, sixteen or
/// more an IPv6 address.
pub open spec fn address_text(family: u8, bytes: Seq<u8>) -> Option<Seq<char>> {
    if family == 2 && bytes.len() >= 4 {
        Some(ipv4_text(bytes.take(4)))
    } else if family == 10 && bytes.len() >= 16 {
        Some(ipv6_text(bytes.take(16)))
    } else {
        None
    }
}

/// What came of receiving from a route socket.
#[derive(Debug, PartialEq, Eq)]
pub enum Received {
    /// These bytes were received.
    Data(Vec<u8>),
    /// A signal interrupted the waiting.
    Interrupted,
    /// Nothing can be received, be it that the socket failed or that there is none.
    Failed,
}

/// How waiting for a change goes on.
#[derive(Clone, Copy, Debug, PartialEq, Eq, Structural)]
pub enum WaitStep {
    /// Receive again.
    Again,
    /// There is a change worth acting on.
    Changed,
    /// Report the failure.
    Failed,
}

/// Whether a buffer reports a change worth acting on.
pub open spec fn reports_change(data: Seq<u8>, ignored: Seq<u32>) -> bool {
    exists|i: int|
        0 <= i < messages(data).len() && is_relevant(#[trigger] messages(data)[i], ignored)
}

/// How waiting for a change goes on after something was received.
pub open spec fn wait_step(received: Received, ignored: Seq<u32>) -> WaitStep {
    match received {
        Received::Data(bytes) => if reports_change(bytes@, ignored) {
            WaitStep::Changed
        } else {
            WaitStep::Again
        },
        Received::Interrupted => WaitStep::Again,
        Received::Failed => WaitStep::Failed,
    }
}

/// Tells how waiting for a change worth acting on goes on. Only a failure to receive ends it
/// without one.
pub fn wait_for_change(received: &Received, ignore_tables: &[u32]) -> (step: WaitStep)
    ensures
        step == wait_step(*received, ignore_tables@),
{
    match received {
        Received::Data(bytes) => if any_message_relevant(bytes.as_slice(), ignore_tables) {
            WaitStep::Changed
        } else {
            WaitStep::Again
        },
        Received::Interrupted => WaitStep::Again,
        Received::Failed => WaitStep::Failed,
    }
}

/// The text of an address of a family.
pub fn format_addr(family: u8, bytes: &[u8]) -> (text: Option<String>)
    ensures
        text_of(text) == address_text(family, bytes@),
{
    if family as i32 == af_inet() && bytes.len() >= 4 {
        let octets = slice_subrange(bytes, 0, 4);
        assert(octets@ =~= bytes@.take(4));
        Some(ipv4_string(octets))
    } else if family as i32 == af_inet6() && bytes.len() >= 16 {
        let octets = slice_subrange(bytes, 0, 16);
        assert(octets@ =~= bytes@.take(16));
        Some(ipv6_string(octets))
    } else {
        None
    }
}

/// The address family of a version of the internet protocol.
pub fn route_family(v6: bool) -> (family: u8)
    ensures
        family == (if v6 { 10u8 } else { 2u8 }),
{
    if v6 {
        af_inet6() as u8
    } else {
        af_inet() as u8
    }
}

/// A default route of the main table, before the name of its interface is known.
#[derive(Debug, PartialEq, Eq)]
pub struct DefaultRoute {
    pub gateway: Option<String>,
    /// The number of the interface.
    pub oif: Option<u32>,
    pub metric: Option<u32>,
}

/// The texts of a default route.
pub struct DefaultRouteView {
    pub gateway: Option<Seq<char>>,
    pub oif: Option<u32>,
    pub metric: Option<u32>,
}

impl View for DefaultRoute {
    type V = DefaultRouteView;

    open spec fn view(&self) -> DefaultRouteView {
        DefaultRouteView { gateway: text_of(self.gateway), oif: self.oif, metric: self.metric }
    }
}

/// The gateway that attributes name, as a text. The last one counts.
pub open spec fn gateway_in(family: u8, list: Seq<Attribute>) -> Option<Seq<char>> {
    match last_value(list, RTA_GATEWAY) {
        Some(value) => address_text(family, value),
        None => None,
    }
}

/// The default route of the main table that a route message is about, if it is about one.
pub open spec fn default_route(payload: Seq<u8>) -> Option<DefaultRouteView> {
    let list = route_attributes(payload);
    if is_default(payload) && route_table(payload) == RT_TABLE_MAIN {
        Some(
            DefaultRouteView {
                gateway: gateway_in(payload[0], list),
                oif: last_number(list, RTA_OIF),
                metric: last_number(list, RTA_PRIORITY),
            },
        )
    } else {
        None
    }
}

/// Reads the default route of the main table out of a route message.
pub fn parse_default_route(payload: &[u8]) -> (route: Option<DefaultRoute>)
    ensures
        route is Some == default_route(payload@) is Some,
        route matches Some(found) ==> found@ == default_route(payload@)->0,
{
    if payload.len() < RTMSG_LEN || payload[1] != 0 {
        return None;
    }
    let family: u8 = payload[0];
    let mut table: u32 = payload[4] as u32;
    let mut gateway: Option<String> = None;
    let mut oif: Option<u32> = None;
    let mut metric: Option<u32> = None;
    let mut list = attributes(slice_subrange(payload, RTMSG_LEN, payload.len()));
    assert(payload@.subrange(RTMSG_LEN as int, payload@.len() as int) =~= payload@.skip(
        RTMSG_LEN as int,
    ));
    let ghost all = route_attributes(payload@);
    let ghost mut n: int = 0;
    assert(all.skip(0) =~= all);
    loop
        invariant_except_break
            0 <= n <= all.len(),
            attribute_list(list.data@) == all.skip(n),
            table == table_of(all.take(n), payload@[4]),
            text_of(gateway) == gateway_in(family, all.take(n)),
            oif == last_number(all.take(n), RTA_OIF),
            metric == last_number(all.take(n), RTA_PRIORITY),
        invariant
            payload@.len() >= RTMSG_LEN,
        ensures
            table == table_of(all, payload@[4]),
            text_of(gateway) == gateway_in(family, all),
            oif == last_number(all, RTA_OIF),
            metric == last_number(all, RTA_PRIORITY),
        decreases list.data@.len(),
    {
        match list.next() {
            Some(attr) => {
                proof {
                    assert(all.skip(n).drop_first() =~= all.skip(n + 1));
                    assert(all.take(n + 1).drop_last() =~= all.take(n));
                    assert(all.take(n + 1).last() == attr@);
                }
                if attr.kind == RTA_TABLE {
                    match read_u32(attr.value) {
                        Some(value) => {
                            table = value;
                        },
                        None => {},
                    }
                } else if attr.kind == RTA_GATEWAY {
                    gateway = format_addr(family, attr.value);
                } else if attr.kind == RTA_OIF {
                    oif = read_u32(attr.value);
                } else if attr.kind == RTA_PRIORITY {
                    metric = read_u32(attr.value);
                }
                proof {
                    n = n + 1;
                }
            },
            None => {
                assert(all.take(n) =~= all);
                break ;
            },
        }
    }
    if table != RT_TABLE_MAIN {
        return None;
    }
    Some(DefaultRoute { gateway, oif, metric })
}

/// The name in a buffer that the system fills with a name and a zero byte after it. There is
/// none when the name is no UTF-8.
pub open spec fn name_in(buffer: Seq<u8>) -> Option<Seq<char>> {
    let name = buffer.take(first_at(buffer, 0u8) as int);
    if vstd::utf8::valid_utf8(name) {
        Some(vstd::utf8::decode_utf8(name))
    } else {
        None
    }
}

/// The name of an interface, in the buffer that the system filled for its number, or nothing
/// when it knows no interface of that number.
pub fn index_to_name(buffer: Option<&[u8]>) -> (name: Option<String>)
    ensures
        text_of(name) == (match buffer {
            Some(filled) => name_in(filled@),
            None => None,
        }),
{
    let filled = match buffer {
        Some(filled) => filled,
        None => return None,
    };
    let mut end: usize = 0;
    while end < filled.len() && filled[end] != 0
        invariant
            end <= filled@.len(),
            forall|i: int| 0 <= i < end ==> #[trigger] filled@[i] != 0,
        decreases filled@.len() - end,
    {
        end = end + 1;
    }
    proof {
        lemma_first_at(filled@, 0u8, end as nat);
        assert(filled@.subrange(0, end as int) =~= filled@.take(end as int));
    }
    decode(slice_subrange(filled, 0, end))
}

/// A default route in the form that the `ip` tool accepts, given the name that its interface
/// has. There is none for a route that names neither a gateway nor an interface, and only a
/// route with the number of an interface names one. The metric is kept, so that several
/// defaults preserve their relative preference.
pub open spec fn route_line(route: DefaultRouteView, name: Option<Seq<char>>) -> Option<Seq<char>> {
    let dev = if route.oif is Some {
        name
    } else {
        None
    };
    let via = match route.gateway {
        Some(gateway) => " via "@ + gateway,
        None => seq![],
    };
    let on = match dev {
        Some(interface) => " dev "@ + interface,
        None => seq![],
    };
    let preference = match route.metric {
        Some(metric) => if metric != 0 {
            " metric "@ + decimal(metric as nat)
        } else {
            seq![]
        },
        None => seq![],
    };
    if route.gateway is None && dev is None {
        None
    } else {
        Some("default"@ + via + on + preference)
    }
}

/// Writes a default route in the form that the `ip` tool accepts, given the name that its
/// interface has.
pub fn route_text(route: &DefaultRoute, name: &Option<String>) -> (line: Option<String>)
    ensures
        text_of(line) == route_line(route@, text_of(*name)),
{
    let named: bool = route.oif.is_some() && name.is_some();
    if route.gateway.is_none() && !named {
        return None;
    }
    let mut line = "default".to_string();
    match &route.gateway {
        Some(gateway) => {
            line.push_str(" via ");
            line.push_str(gateway.as_str());
        },
        None => {},
    }
    if route.oif.is_some() {
        match name {
            Some(interface) => {
                line.push_str(" dev ");
                line.push_str(interface.as_str());
            },
            None => {},
        }
    }
    match route.metric {
        Some(metric) => {
            if metric != 0 {
                line.push_str(" metric ");
                push_decimal(&mut line, metric as u64);
            }
        },
        None => {},
    }
    assert(line@ =~= route_line(route@, text_of(*name))->0);
    Some(line)
}

/// How a dump of the routing table goes on after messages.
pub enum DumpEnd {
    /// More buffers follow.
    More,
    /// The dump is complete.
    Done,
    /// The kernel reported an error.
    Failed,
}

/// What a buffer of a dump holds.
#[derive(Debug, PartialEq, Eq)]
pub enum DumpChunk {
    /// These default routes, and more buffers follow.
    More(Vec<DefaultRoute>),
    /// These default routes, with which the dump is complete.
    Done(Vec<DefaultRoute>),
    /// The report of an error, whatever else the buffer holds.
    Failed,
}

/// What a buffer of a dump holds, over sequences.
pub enum DumpChunkView {
    More(Seq<DefaultRouteView>),
    Done(Seq<DefaultRouteView>),
    Failed,
}

impl View for DumpChunk {
    type V = DumpChunkView;

    open spec fn view(&self) -> DumpChunkView {
        match *self {
            DumpChunk::More(routes) => DumpChunkView::More(route_views(routes@)),
            DumpChunk::Done(routes) => DumpChunkView::Done(route_views(routes@)),
            DumpChunk::Failed => DumpChunkView::Failed,
        }
    }
}

/// The default routes that the messages of a dump list, up to its end.
pub open spec fn listed_routes(list: Seq<Message>) -> Seq<DefaultRouteView>
    decreases list.len(),
{
    if list.len() == 0 || list[0].kind == NLMSG_DONE || list[0].kind == NLMSG_ERROR {
        seq![]
    } else if list[0].kind == RTM_NEWROUTE && default_route(list[0].payload) is Some {
        seq![default_route(list[0].payload)->0] + listed_routes(list.drop_first())
    } else {
        listed_routes(list.drop_first())
    }
}

/// How a dump goes on after messages: the first one that ends it decides.
pub open spec fn dump_end(list: Seq<Message>) -> DumpEnd
    decreases list.len(),
{
    if list.len() == 0 {
        DumpEnd::More
    } else if list[0].kind == NLMSG_DONE {
        DumpEnd::Done
    } else if list[0].kind == NLMSG_ERROR {
        DumpEnd::Failed
    } else {
        dump_end(list.drop_first())
    }
}

/// The texts of a list of default routes.
pub open spec fn route_views(list: Seq<DefaultRoute>) -> Seq<DefaultRouteView> {
    Seq::new(list.len(), |i: int| list[i]@)
}

/// What a buffer of a dump holds. An empty buffer ends the dump.
pub open spec fn dump_chunk(data: Seq<u8>) -> DumpChunkView {
    let list = messages(data);
    if data.len() == 0 {
        DumpChunkView::Done(seq![])
    } else {
        match dump_end(list) {
            DumpEnd::More => DumpChunkView::More(listed_routes(list)),
            DumpEnd::Done => DumpChunkView::Done(listed_routes(list)),
            DumpEnd::Failed => DumpChunkView::Failed,
        }
    }
}

/// Reads one buffer of a dump of the routing table. The routes of a buffer that reports an
/// error are not handed out.
pub fn dump_default_routes(data: &[u8]) -> (chunk: DumpChunk)
    ensures
        chunk@ == dump_chunk(data@),
{
    let mut routes: Vec<DefaultRoute> = Vec::new();
    assert(route_views(routes@) =~= seq![]);
    if data.len() == 0 {
        return DumpChunk::Done(routes);
    }
    let mut list = Messages { data };
    let ghost all = messages(data@);
    assert(route_views(routes@) + listed_routes(all) =~= listed_routes(all));
    loop
        invariant
            all == messages(data@),
            data@.len() > 0,
            route_views(routes@) + listed_routes(messages(list.data@)) == listed_routes(all),
            dump_end(messages(list.data@)) == dump_end(all),
        decreases list.data@.len(),
    {
        let ghost left = messages(list.data@);
        let ghost before = route_views(routes@);
        match list.next() {
            Some(message) => {
                assert(message@ == left[0]);
                if message.kind == NLMSG_DONE {
                    assert(route_views(routes@) =~= listed_routes(all));
                    return DumpChunk::Done(routes);
                }
                if message.kind == NLMSG_ERROR {
                    return DumpChunk::Failed;
                }
                if message.kind == RTM_NEWROUTE {
                    match parse_default_route(message.payload) {
                        Some(route) => {
                            routes.push(route);
                            assert(route_views(routes@) =~= before.push(route@));
                            assert(route_views(routes@) + listed_routes(left.drop_first())
                                =~= before + listed_routes(left));
                        },
                        None => {},
                    }
                }
            },
            None => {
                assert(route_views(routes@) =~= listed_routes(all));
                return DumpChunk::More(routes);
            },
        }
    }
}

/// A list with a line at its end, unless the list has it or there is no line.
pub open spec fn with_line(list: Seq<Seq<char>>, line: Option<Seq<char>>) -> Seq<Seq<char>> {
    match line {
        Some(present) => if list.contains(present) {
            list
        } else {
            list.push(present)
        },
        None => list,
    }
}

/// Adds a route to those found so far, unless it is there already.
pub fn add_route(routes: &mut Vec<String>, line: Option<String>)
    ensures
        texts(final(routes)@) == with_line(texts(old(routes)@), text_of(line)),
{
    let ghost before = texts(routes@);
    let added = match line {
        Some(added) => added,
        None => return ,
    };
    let mut i: usize = 0;
    while i < routes.len()
        invariant
            before == texts(routes@),
            text_of(line) == Some(added@),
            i <= routes@.len(),
            forall|j: int| 0 <= j < i ==> #[trigger] before[j] != added@,
            *routes == *old(routes),
        decreases routes@.len() - i,
    {
        if same_text(routes[i].as_str(), added.as_str()) {
            assert(before[i as int] == added@);
            assert(before.contains(added@));
            return ;
        }
        i = i + 1;
    }
    assert(!before.contains(added@));
    routes.push(added);
    assert(texts(routes@) =~= before.push(added@));
}

/// The request for a dump of the routing table of a family. Read back as a message, it is one
/// of kind `RTM_GETROUTE` with a fixed part that names the family alone.
pub open spec fn is_dump_request(request: Seq<u8>, family: u8) -> bool {
    &&& request.len() == NLMSG_HDR_LEN + RTMSG_LEN
    &&& native_u32(request.take(4)) == NLMSG_HDR_LEN + RTMSG_LEN
    &&& native_u16(request.subrange(4, 6)) == RTM_GETROUTE
    &&& native_u16(request.subrange(6, 8)) == NLM_F_REQUEST + NLM_F_DUMP
    &&& native_u32(request.subrange(8, 12)) == 1
    &&& native_u32(request.subrange(12, 16)) == 0
    &&& request[16] == family
    &&& forall|i: int| 17 <= i < request.len() ==> #[trigger] request[i] == 0
}

/// The name of the interface of the `i`-th route, where one is known.
pub open spec fn name_at(devs: Seq<Option<String>>, i: int) -> Option<Seq<char>> {
    if 0 <= i < devs.len() {
        text_of(devs[i])
    } else {
        None
    }
}

/// The routes found so far with those of a buffer behind them, given the names of their
/// interfaces.
pub open spec fn collected(
    list: Seq<Seq<char>>,
    found: Seq<DefaultRouteView>,
    devs: Seq<Option<String>>,
) -> Seq<Seq<char>>
    decreases found.len(),
{
    if found.len() == 0 {
        list
    } else {
        let n = found.len() - 1;
        with_line(
            collected(list, found.drop_last(), devs),
            route_line(found[n], name_at(devs, n)),
        )
    }
}

/// Adds the routes of a buffer to those found so far: `devs` are the names of their
/// interfaces, where they are known.
pub fn default_routes(
    routes: &mut Vec<String>,
    found: &Vec<DefaultRoute>,
    devs: &Vec<Option<String>>,
)
    ensures
        texts(final(routes)@) == collected(texts(old(routes)@), route_views(found@), devs@),
{
    let ghost before = texts(routes@);
    let ghost all = route_views(found@);
    let mut i: usize = 0;
    assert(all.take(0) =~= seq![]);
    while i < found.len()
        invariant
            i <= found@.len(),
            all == route_views(found@),
            texts(routes@) == collected(before, all.take(i as int), devs@),
        decreases found@.len() - i,
    {
        proof {
            assert(all.take(i + 1).drop_last() =~= all.take(i as int));
            assert(all.take(i + 1)[i as int] == found@[i as int]@);
        }
        if i < devs.len() {
            add_route(routes, route_text(&found[i], &devs[i]));
        } else {
            add_route(routes, route_text(&found[i], &None));
        }
        i = i + 1;
    }
    assert(all.take(i as int) =~= all);
}

/// How a dump of the routing table goes on.
#[derive(Debug, PartialEq, Eq)]
pub enum DumpStep {
    /// Receive again, with the routes found so far.
    Again(Vec<String>),
    /// Nothing more: these are the routes.
    Finished(Vec<String>),
}

/// The texts of a step.
pub enum DumpStepView {
    Again(Seq<Seq<char>>),
    Finished(Seq<Seq<char>>),
}

impl View for DumpStep {
    type V = DumpStepView;

    open spec fn view(&self) -> DumpStepView {
        match *self {
            DumpStep::Again(routes) => DumpStepView::Again(texts(routes@)),
            DumpStep::Finished(routes) => DumpStepView::Finished(texts(routes@)),
        }
    }
}

/// How a dump goes on after something was received: an interruption changes nothing, and a
/// failure of any kind leaves no route.
pub open spec fn dumps(
    routes: Seq<Seq<char>>,
    received: Received,
    devs: Seq<Option<String>>,
) -> DumpStepView {
    match received {
        Received::Data(bytes) => match dump_chunk(bytes@) {
            DumpChunkView::More(found) => DumpStepView::Again(collected(routes, found, devs)),
            DumpChunkView::Done(found) => DumpStepView::Finished(collected(routes, found, devs)),
            DumpChunkView::Failed => DumpStepView::Finished(seq![]),
        },
        Received::Interrupted => DumpStepView::Again(routes),
        Received::Failed => DumpStepView::Finished(seq![]),
    }
}

/// Goes on with a dump of the routing table: `routes` are those found so far, and `devs` the
/// names of the interfaces of the routes that the received buffer holds, where they are known.
/// Reading the routes is a best effort, so a dump that fails lists none.
pub fn dump_step(routes: Vec<String>, received: &Received, devs: &Vec<Option<String>>) -> (step:
    DumpStep)
    ensures
        step@ == dumps(texts(routes@), *received, devs@),
{
    let mut known = routes;
    match received {
        Received::Data(bytes) => match dump_default_routes(bytes.as_slice()) {
            DumpChunk::More(found) => {
                default_routes(&mut known, &found, devs);
                DumpStep::Again(known)
            },
            DumpChunk::Done(found) => {
                default_routes(&mut known, &found, devs);
                DumpStep::Finished(known)
            },
            DumpChunk::Failed => no_routes(),
        },
        Received::Interrupted => DumpStep::Again(known),
        Received::Failed => no_routes(),
    }
}

/// The end of a dump that failed.
fn no_routes() -> (step: DumpStep)
    ensures
        step@ == DumpStepView::Finished(seq![]),
{
    let none: Vec<String> = Vec::new();
    assert(texts(none@) =~= seq![]);
    DumpStep::Finished(none)
}

/// Appends bytes.
fn push_bytes(out: &mut Vec<u8>, bytes: &[u8])
    ensures
        final(out)@ == old(out)@ + bytes@,
{
    let mut i: usize = 0;
    assert(out@ =~= old(out)@ + bytes@.take(0));
    while i < bytes.len()
        invariant
            i <= bytes@.len(),
            out@ == old(out)@ + bytes@.take(i as int),
        decreases bytes@.len() - i,
    {
        out.push(bytes[i]);
        i = i + 1;
        assert(out@ =~= old(out)@ + bytes@.take(i as int));
    }
    assert(bytes@.take(i as int) =~= bytes@);
}

/// Builds the request for a dump of the routing table of a family.
pub fn route_dump_request(family: u8) -> (request: Vec<u8>)
    ensures
        is_dump_request(request@, family),
{
    let total: u32 = 28;
    let len: [u8; 4] = u32_to_ne(total);
    let kind: [u8; 2] = u16_to_ne(RTM_GETROUTE);
    let flags: [u8; 2] = u16_to_ne(NLM_F_REQUEST + NLM_F_DUMP);
    let seq: [u8; 4] = u32_to_ne(1);
    let pid: [u8; 4] = u32_to_ne(0);
    let mut request: Vec<u8> = Vec::new();
    push_bytes(&mut request, &len);
    push_bytes(&mut request, &kind);
    push_bytes(&mut request, &flags);
    push_bytes(&mut request, &seq);
    push_bytes(&mut request, &pid);
    push_bytes(&mut request, &[family, 0, 0, 0, 0, 0, 0, 0, 0, 0, 0, 0]);
    assert(request@.take(4) =~= len@);
    assert(request@.subrange(4, 6) =~= kind@);
    assert(request@.subrange(6, 8) =~= flags@);
    assert(request@.subrange(8, 12) =~= seq@);
    assert(request@.subrange(12, 16) =~= pid@);
    request
}

/// The groups of changes to listen to: links, addresses and routes of both families. A
/// handover shows up as some combination of these.
pub fn monitor_groups() -> (groups: u32)
    ensures
        groups == RTMGRP_LINK + RTMGRP_IPV4_IFADDR + RTMGRP_IPV4_ROUTE + RTMGRP_IPV6_IFADDR
            + RTMGRP_IPV6_ROUTE,
{
    RTMGRP_LINK + RTMGRP_IPV4_IFADDR + RTMGRP_IPV4_ROUTE + RTMGRP_IPV6_IFADDR + RTMGRP_IPV6_ROUTE
}

/// The daemon does not react to what it does itself: a buffer of nothing but route changes,
/// each of them in a table to ignore or not about a default route, reports nothing worth
/// acting on.
pub proof fn own_changes_are_not_relevant(data: Seq<u8>, ignored: Seq<u32>)
    requires
        forall|i: int|
            #![trigger messages(data)[i]]
            0 <= i < messages(data).len() ==> {
                let message = messages(data)[i];
                &&& message.kind == RTM_NEWROUTE || message.kind == RTM_DELROUTE
                &&& is_default(message.payload) ==> ignored.contains(route_table(message.payload))
            },
    ensures
        !reports_change(data, ignored),
{
}

/// A default route that comes or goes in a table that is not ignored is always noticed,
/// whatever else the buffer holds.
pub proof fn other_default_changes_are_relevant(data: Seq<u8>, ignored: Seq<u32>, i: int)
    requires
        0 <= i < messages(data).len(),
        messages(data)[i].kind == RTM_NEWROUTE || messages(data)[i].kind == RTM_DELROUTE,
        is_default(messages(data)[i].payload),
        !ignored.contains(route_table(messages(data)[i].payload)),
    ensures
        reports_change(data, ignored),
{
    assert(is_relevant(messages(data)[i], ignored));
}

/// The request for a dump reads back as one message, which asks for the routes of the family.
pub proof fn dump_request_reads_back(request: Seq<u8>, family: u8)
    requires
        is_dump_request(request, family),
    ensures
        messages(request).len() == 1,
        messages(request)[0].kind == RTM_GETROUTE,
        messages(request)[0].payload.len() == RTMSG_LEN,
        messages(request)[0].payload[0] == family,
{
    assert(after(request, 28) =~= seq![]);
    assert(messages(after(request, 28)) =~= seq![]);
    assert(messages(request) =~= seq![first_message(request)]);
}

/// Adding a route keeps those found so far in their order, and no route is there twice.
pub proof fn added_routes_stay_distinct(list: Seq<Seq<char>>, line: Option<Seq<char>>)
    requires
        list.no_duplicates(),
    ensures
        with_line(list, line).no_duplicates(),
        with_line(list, line).take(list.len() as int) == list,
        line matches Some(present) ==> with_line(list, line).contains(present),
{
    assert(with_line(list, line).take(list.len() as int) =~= list);
    if let Some(present) = line {
        if !list.contains(present) {
            assert(list.push(present).last() == present);
        }
    }
}

/// Whether lines are those of default routes, each there once.
pub open spec fn are_defaults(list: Seq<Seq<char>>) -> bool {
    &&& list.no_duplicates()
    &&& forall|i: int| 0 <= i < list.len() ==> begins_with(#[trigger] list[i], "default"@)
}

/// Every line of a route begins with the word that makes it a default route. A route without
/// the number of an interface names none, whatever name is known.
pub proof fn lines_are_default_routes(route: DefaultRouteView, name: Option<Seq<char>>)
    ensures
        route_line(route, name) matches Some(line) ==> begins_with(line, "default"@),
        route.oif is None ==> route_line(route, name) == route_line(route, None),
{
    if let Some(line) = route_line(route, name) {
        assert(line.take("default"@.len() as int) =~= "default"@);
    }
}

proof fn lemma_collected(
    list: Seq<Seq<char>>,
    found: Seq<DefaultRouteView>,
    devs: Seq<Option<String>>,
)
    requires
        are_defaults(list),
    ensures
        are_defaults(collected(list, found, devs)),
    decreases found.len(),
{
    if found.len() > 0 {
        let n = found.len() - 1;
        let before = collected(list, found.drop_last(), devs);
        lemma_collected(list, found.drop_last(), devs);
        lines_are_default_routes(found[n], name_at(devs, n));
        added_routes_stay_distinct(before, route_line(found[n], name_at(devs, n)));
    }
}

/// One round of a dump: what was received, and the names of the interfaces.
pub struct DumpRound {
    pub received: Received,
    pub devs: Seq<Option<String>>,
}

/// The routes that a dump lists after these rounds, or nothing when it is not at its end.
pub open spec fn dumped(routes: Seq<Seq<char>>, rounds: Seq<DumpRound>) -> Option<Seq<Seq<char>>>
    decreases rounds.len(),
{
    if rounds.len() == 0 {
        None
    } else {
        match dumps(routes, rounds[0].received, rounds[0].devs) {
            DumpStepView::Again(more) => dumped(more, rounds.drop_first()),
            DumpStepView::Finished(all) => Some(all),
        }
    }
}

/// Whether something received ends a dump with a failure.
pub open spec fn is_failure(received: Received) -> bool {
    match received {
        Received::Data(bytes) => dump_chunk(bytes@) is Failed,
        Received::Interrupted => false,
        Received::Failed => true,
    }
}

/// Whether something received leaves a dump open.
pub open spec fn leaves_open(received: Received) -> bool {
    match received {
        Received::Data(bytes) => dump_chunk(bytes@) is More,
        Received::Interrupted => true,
        Received::Failed => false,
    }
}

proof fn lemma_dumped(routes: Seq<Seq<char>>, rounds: Seq<DumpRound>)
    requires
        are_defaults(routes),
    ensures
        dumped(routes, rounds) matches Some(all) ==> are_defaults(all),
    decreases rounds.len(),
{
    if rounds.len() > 0 {
        if let Received::Data(bytes) = rounds[0].received {
            match dump_chunk(bytes@) {
                DumpChunkView::More(found) => {
                    lemma_collected(routes, found, rounds[0].devs);
                },
                DumpChunkView::Done(found) => {
                    lemma_collected(routes, found, rounds[0].devs);
                },
                DumpChunkView::Failed => {},
            }
        }
        if let DumpStepView::Again(more) = dumps(routes, rounds[0].received, rounds[0].devs) {
            lemma_dumped(more, rounds.drop_first());
        }
    }
}

/// However many rounds a dump has, it lists default routes only, and none of them twice.
pub proof fn dumps_list_distinct_defaults(rounds: Seq<DumpRound>)
    ensures
        dumped(seq![], rounds) matches Some(all) ==> are_defaults(all),
{
    lemma_dumped(seq![], rounds);
}

/// A dump that fails in any round lists nothing, whatever routes were found before.
pub proof fn failed_dumps_list_nothing(routes: Seq<Seq<char>>, rounds: Seq<DumpRound>, n: int)
    requires
        0 <= n < rounds.len(),
        forall|i: int| 0 <= i < n ==> leaves_open((#[trigger] rounds[i]).received),
        is_failure(rounds[n].received),
    ensures
        dumped(routes, rounds) == Some(Seq::<Seq<char>>::empty()),
    decreases n,
{
    if n > 0 {
        assert(leaves_open(rounds[0].received));
        let rest = rounds.drop_first();
        assert forall|i: int| 0 <= i < n - 1 implies leaves_open((#[trigger] rest[i]).received) by {
            assert(rest[i] == rounds[i + 1]);
        }
        assert(rest[n - 1] == rounds[n]);
        if let DumpStepView::Again(more) = dumps(routes, rounds[0].received, rounds[0].devs) {
            failed_dumps_list_nothing(more, rest, n - 1);
        }
    }
}

/// An interruption changes nothing about what a dump lists.
pub proof fn interruptions_do_not_matter(
    routes: Seq<Seq<char>>,
    rounds: Seq<DumpRound>,
    devs: Seq<Option<String>>,
)
    ensures
        dumped(routes, seq![DumpRound { received: Received::Interrupted, devs }] + rounds)
            == dumped(routes, rounds),
{
    let all = seq![DumpRound { received: Received::Interrupted, devs }] + rounds;
    assert(all.drop_first() =~= rounds);
}

} // verus!
