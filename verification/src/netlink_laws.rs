//! What reading route sockets is for, stated of the bytes and attributes that the kernel sends.
use crate::addr::{ipv4_reads_back, ipv6_text, reads_as_ipv4};
use crate::netlink::{
    address_text, attribute_list, collected, default_route, dump_chunk, dump_end, dumps,
    first_attribute, first_message, has_attribute, has_message, is_dump_request, is_relevant,
    last_value, listed_routes, messages, name_in, native_u16, native_u32, reports_change,
    route_attributes, route_line, route_table, table_of, wait_step, with_line, Attribute,
    DefaultRouteView, DumpChunkView, DumpStepView, Message, Received, WaitStep,
};
use crate::text::{
    decimal, decimal_is_digits, is_space, lemma_first_at, one_word, text_of, words,
    words_are_separated,
};
use vstd::prelude::*;

verus! {

broadcast use vstd::string::group_string_axioms;

/// Whether bytes are an attribute: its length and its kind in the byte order of the machine, its
/// value, and padding up to a multiple of four.
pub open spec fn is_attribute(bytes: Seq<u8>, attribute: Attribute) -> bool {
    let len = 4 + attribute.value.len();
    &&& len <= bytes.len() < len + 4
    &&& bytes.len() % 4 == 0
    &&& native_u16(bytes.take(2)) == len
    &&& native_u16(bytes.subrange(2, 4)) == attribute.kind
    &&& bytes.subrange(4, len as int) == attribute.value
}

/// An attribute reads back from its bytes, and so do those that follow it.
pub proof fn attributes_read_back(bytes: Seq<u8>, attribute: Attribute, rest: Seq<u8>)
    requires
        is_attribute(bytes, attribute),
    ensures
        attribute_list(bytes + rest) == seq![attribute] + attribute_list(rest),
{
    let data = bytes + rest;
    let len = 4 + attribute.value.len();
    assert(data.take(2) =~= bytes.take(2));
    assert(data.subrange(2, 4) =~= bytes.subrange(2, 4));
    assert(data.subrange(4, len as int) =~= bytes.subrange(4, len as int));
    assert(has_attribute(data));
    assert(first_attribute(data) == attribute);
    assert(crate::netlink::aligned(len) == bytes.len());
    assert(crate::netlink::after(data, len) =~= rest);
}

/// The last attribute reads back without its padding, and one that is cut off is none.
pub proof fn last_attribute_reads_back(bytes: Seq<u8>, attribute: Attribute, n: int)
    requires
        is_attribute(bytes, attribute),
        0 <= n <= bytes.len(),
    ensures
        attribute_list(bytes.take(n)) == (if n >= 4 + attribute.value.len() {
            seq![attribute]
        } else {
            seq![]
        }),
{
    let data = bytes.take(n);
    let len = 4 + attribute.value.len();
    if n >= 4 {
        assert(data.take(2) =~= bytes.take(2));
        assert(data.subrange(2, 4) =~= bytes.subrange(2, 4));
    }
    if n >= len {
        assert(data.subrange(4, len as int) =~= bytes.subrange(4, len as int));
        assert(first_attribute(data) == attribute);
        assert(crate::netlink::after(data, len) =~= seq![]);
        assert(attribute_list(seq![]) =~= seq![]);
        assert(attribute_list(data) =~= seq![attribute]);
    }
}

/// Whether bytes are a message: its length and its kind in the byte order of the machine, ten
/// more bytes of its header, its payload, and padding up to a multiple of four.
pub open spec fn is_message(bytes: Seq<u8>, message: Message) -> bool {
    let len = 16 + message.payload.len();
    &&& len <= bytes.len() < len + 4
    &&& bytes.len() % 4 == 0
    &&& native_u32(bytes.take(4)) == len
    &&& native_u16(bytes.subrange(4, 6)) == message.kind
    &&& bytes.subrange(16, len as int) == message.payload
}

/// A message reads back from its bytes, and so do those that follow it.
pub proof fn messages_read_back(bytes: Seq<u8>, message: Message, rest: Seq<u8>)
    requires
        is_message(bytes, message),
    ensures
        messages(bytes + rest) == seq![message] + messages(rest),
{
    let data = bytes + rest;
    let len = 16 + message.payload.len();
    assert(data.take(4) =~= bytes.take(4));
    assert(data.subrange(4, 6) =~= bytes.subrange(4, 6));
    assert(data.subrange(16, len as int) =~= bytes.subrange(16, len as int));
    assert(has_message(data));
    assert(first_message(data) == message);
    assert(crate::netlink::aligned(len) == bytes.len());
    assert(crate::netlink::after(data, len) =~= rest);
}

/// The last message reads back without its padding, and one that is cut off is none.
pub proof fn last_message_reads_back(bytes: Seq<u8>, message: Message, n: int)
    requires
        is_message(bytes, message),
        0 <= n <= bytes.len(),
    ensures
        messages(bytes.take(n)) == (if n >= 16 + message.payload.len() {
            seq![message]
        } else {
            seq![]
        }),
{
    let data = bytes.take(n);
    let len = 16 + message.payload.len();
    if n >= 16 {
        assert(data.take(4) =~= bytes.take(4));
        assert(data.subrange(4, 6) =~= bytes.subrange(4, 6));
    }
    if n >= len {
        assert(data.subrange(16, len as int) =~= bytes.subrange(16, len as int));
        assert(first_message(data) == message);
        assert(crate::netlink::after(data, len) =~= seq![]);
        assert(messages(seq![]) =~= seq![]);
        assert(messages(data) =~= seq![message]);
    }
}

/// Whether an attribute names a table.
pub open spec fn names_table(attribute: Attribute) -> bool {
    attribute.kind == 15 && attribute.value.len() >= 4
}

proof fn lemma_table_named(list: Seq<Attribute>, fixed: u8, i: int)
    requires
        0 <= i < list.len(),
        names_table(list[i]),
        forall|j: int| i < j < list.len() ==> !names_table(#[trigger] list[j]),
    ensures
        table_of(list, fixed) == native_u32(list[i].value.take(4)),
    decreases list.len(),
{
    if i < list.len() - 1 {
        assert(!names_table(list[list.len() - 1]));
        lemma_table_named(list.drop_last(), fixed, i);
    }
}

proof fn lemma_table_fixed(list: Seq<Attribute>, fixed: u8)
    requires
        forall|j: int| 0 <= j < list.len() ==> !names_table(#[trigger] list[j]),
    ensures
        table_of(list, fixed) == fixed,
    decreases list.len(),
{
    if list.len() > 0 {
        assert(!names_table(list[list.len() - 1]));
        lemma_table_fixed(list.drop_last(), fixed);
    }
}

/// The table of a route is the number in the attribute that names one, wherever it stands among
/// the others: attributes of other kinds have no part in it. Of several, the last one counts.
pub proof fn table_is_in_its_attribute(payload: Seq<u8>, i: int)
    requires
        0 <= i < route_attributes(payload).len(),
        names_table(route_attributes(payload)[i]),
        forall|j: int|
            i < j < route_attributes(payload).len() ==> !names_table(
                #[trigger] route_attributes(payload)[j],
            ),
    ensures
        route_table(payload) == native_u32(route_attributes(payload)[i].value.take(4)),
{
    lemma_table_named(route_attributes(payload), payload[4], i);
}

/// Where no attribute names a table, the fixed part of the message does.
pub proof fn table_is_in_the_fixed_part(payload: Seq<u8>)
    requires
        forall|j: int|
            0 <= j < route_attributes(payload).len() ==> !names_table(
                #[trigger] route_attributes(payload)[j],
            ),
    ensures
        route_table(payload) == payload[4],
{
    lemma_table_fixed(route_attributes(payload), payload[4]);
}

/// The attributes of a route message are those behind its fixed part of twelve bytes.
pub proof fn attributes_follow_the_fixed_part(fixed: Seq<u8>, rest: Seq<u8>)
    requires
        fixed.len() == 12,
    ensures
        route_attributes(fixed + rest) == attribute_list(rest),
{
    assert((fixed + rest).skip(12) =~= rest);
}

/// What is changed in a table of the daemon's own is not worth acting on, however large the
/// number of the table is: the kernel's message about it, with the number in its attribute, is
/// ignored.
pub proof fn own_tables_are_ignored(message: Message, ignored: Seq<u32>, i: int)
    requires
        message.kind == 24 || message.kind == 25,
        0 <= i < route_attributes(message.payload).len(),
        names_table(route_attributes(message.payload)[i]),
        forall|j: int|
            i < j < route_attributes(message.payload).len() ==> !names_table(
                #[trigger] route_attributes(message.payload)[j],
            ),
        ignored.contains(native_u32(route_attributes(message.payload)[i].value.take(4))),
    ensures
        !is_relevant(message, ignored),
{
    table_is_in_its_attribute(message.payload, i);
}

/// A link or an address that comes or goes is always worth acting on, whatever else the message
/// and the buffer hold.
pub proof fn links_and_addresses_are_relevant(data: Seq<u8>, ignored: Seq<u32>, i: int)
    requires
        0 <= i < messages(data).len(),
        ({
            let kind = messages(data)[i].kind;
            kind == 16 || kind == 17 || kind == 20 || kind == 21
        }),
    ensures
        reports_change(data, ignored),
{
    assert(is_relevant(messages(data)[i], ignored));
}

/// Nothing else is worth acting on: a buffer that reports a change holds a message about a link,
/// an address, or a default route of a table that is not ignored.
pub proof fn changes_have_a_message(data: Seq<u8>, ignored: Seq<u32>)
    requires
        reports_change(data, ignored),
    ensures
        exists|i: int|
            0 <= i < messages(data).len() && ({
                let message = #[trigger] messages(data)[i];
                ||| message.kind == 16 || message.kind == 17
                ||| message.kind == 20 || message.kind == 21
                ||| {
                    &&& message.kind == 24 || message.kind == 25
                    &&& message.payload.len() >= 12
                    &&& message.payload[1] == 0
                    &&& !ignored.contains(route_table(message.payload))
                }
            }),
{
    let i = choose|i: int|
        0 <= i < messages(data).len() && is_relevant(#[trigger] messages(data)[i], ignored);
    assert(is_relevant(messages(data)[i], ignored));
}

/// Waiting ends with the first buffer that reports a change, or with a failure.
pub proof fn waiting_ends_with_a_change(received: Received, ignored: Seq<u32>)
    ensures
        wait_step(received, ignored) == WaitStep::Changed <==> (received matches Received::Data(bytes)
            && reports_change(bytes@, ignored)),
        wait_step(received, ignored) == WaitStep::Failed <==> received is Failed,
{
}

proof fn lemma_last_value(list: Seq<Attribute>, kind: u16, i: int)
    requires
        0 <= i < list.len(),
        list[i].kind == kind,
        forall|j: int| i < j < list.len() ==> (#[trigger] list[j]).kind != kind,
    ensures
        last_value(list, kind) == Some(list[i].value),
    decreases list.len(),
{
    if i < list.len() - 1 {
        assert(list[list.len() - 1].kind != kind);
        lemma_last_value(list.drop_last(), kind, i);
    }
}

proof fn lemma_no_value(list: Seq<Attribute>, kind: u16)
    requires
        forall|j: int| 0 <= j < list.len() ==> (#[trigger] list[j]).kind != kind,
    ensures
        last_value(list, kind) is None,
    decreases list.len(),
{
    if list.len() > 0 {
        assert(list[list.len() - 1].kind != kind);
        lemma_no_value(list.drop_last(), kind);
    }
}

/// Whether the last attribute of a kind in a list is the `i`-th.
pub open spec fn is_last_of(list: Seq<Attribute>, kind: u16, i: int) -> bool {
    &&& 0 <= i < list.len()
    &&& list[i].kind == kind
    &&& forall|j: int| i < j < list.len() ==> (#[trigger] list[j]).kind != kind
}

/// A message is about a default route of the main table exactly if it has its fixed part, its
/// destination has no prefix, and its table is the main one.
pub proof fn main_defaults_are_routes(payload: Seq<u8>)
    ensures
        default_route(payload) is Some <==> payload.len() >= 12 && payload[1] == 0 && route_table(
            payload,
        ) == 254,
{
}

/// The gateway, the interface and the metric of a default route are each in the last attribute of
/// their own kind, whatever stands around it.
pub proof fn route_parts_are_in_their_attributes(payload: Seq<u8>, i: int)
    requires
        default_route(payload) is Some,
    ensures
        is_last_of(route_attributes(payload), 5, i) ==> default_route(payload)->0.gateway
            == address_text(payload[0], route_attributes(payload)[i].value),
        is_last_of(route_attributes(payload), 4, i) && route_attributes(payload)[i].value.len() >= 4
            ==> default_route(payload)->0.oif == Some(
            native_u32(route_attributes(payload)[i].value.take(4)),
        ),
        is_last_of(route_attributes(payload), 6, i) && route_attributes(payload)[i].value.len() >= 4
            ==> default_route(payload)->0.metric == Some(
            native_u32(route_attributes(payload)[i].value.take(4)),
        ),
        is_last_of(route_attributes(payload), 4, i) && route_attributes(payload)[i].value.len() < 4
            ==> default_route(payload)->0.oif is None,
        is_last_of(route_attributes(payload), 6, i) && route_attributes(payload)[i].value.len() < 4
            ==> default_route(payload)->0.metric is None,
{
    let list = route_attributes(payload);
    if is_last_of(list, 5, i) {
        lemma_last_value(list, 5, i);
    }
    if is_last_of(list, 4, i) {
        lemma_last_value(list, 4, i);
    }
    if is_last_of(list, 6, i) {
        lemma_last_value(list, 6, i);
    }
}

/// Whether no attribute of a kind is in a list.
pub open spec fn has_none_of(list: Seq<Attribute>, kind: u16) -> bool {
    forall|j: int| 0 <= j < list.len() ==> (#[trigger] list[j]).kind != kind
}

/// A part of a default route without an attribute of its kind is not known.
pub proof fn missing_parts_are_unknown(payload: Seq<u8>)
    requires
        default_route(payload) is Some,
    ensures
        has_none_of(route_attributes(payload), 5) ==> default_route(payload)->0.gateway is None,
        has_none_of(route_attributes(payload), 4) ==> default_route(payload)->0.oif is None,
        has_none_of(route_attributes(payload), 6) ==> default_route(payload)->0.metric is None,
{
    let list = route_attributes(payload);
    if has_none_of(list, 5) {
        lemma_no_value(list, 5);
    }
    if has_none_of(list, 4) {
        lemma_no_value(list, 4);
    }
    if has_none_of(list, 6) {
        lemma_no_value(list, 6);
    }
}

/// Whether no message in a list ends a dump.
pub open spec fn goes_on(list: Seq<Message>) -> bool {
    forall|i: int| 0 <= i < list.len() ==> (#[trigger] list[i]).kind != 2 && list[i].kind != 3
}

/// The routes of two rows of messages are those of the first and then those of the second, as
/// long as nothing in the first ends the dump.
pub proof fn routes_of_messages_add_up(a: Seq<Message>, b: Seq<Message>)
    requires
        goes_on(a),
    ensures
        listed_routes(a + b) == listed_routes(a) + listed_routes(b),
        dump_end(a + b) == dump_end(b),
        dump_end(a) is More,
    decreases a.len(),
{
    if a.len() == 0 {
        assert(a + b =~= b);
        assert(listed_routes(a) + listed_routes(b) =~= listed_routes(b));
    } else {
        assert(a[0].kind != 2 && a[0].kind != 3);
        assert forall|i: int| 0 <= i < a.drop_first().len() implies (
        #[trigger] a.drop_first()[i]).kind != 2 && a.drop_first()[i].kind != 3 by {
            assert(a.drop_first()[i] == a[i + 1]);
        }
        routes_of_messages_add_up(a.drop_first(), b);
        assert((a + b).drop_first() =~= a.drop_first() + b);
        assert((a + b)[0] == a[0]);
        assert(listed_routes(a + b) =~= listed_routes(a) + listed_routes(b));
    }
}

/// A message lists the default route that it is about, if it is a new one, and ends the dump if
/// it says so. What follows the end is not read.
pub proof fn messages_list_their_route(message: Message, rest: Seq<Message>)
    ensures
        message.kind == 24 ==> listed_routes(seq![message]) == (match default_route(
            message.payload,
        ) {
            Some(route) => seq![route],
            None => seq![],
        }),
        message.kind != 24 ==> listed_routes(seq![message]).len() == 0,
        message.kind == 3 ==> dump_end(seq![message] + rest) is Done && listed_routes(
            seq![message] + rest,
        ).len() == 0,
        message.kind == 2 ==> dump_end(seq![message] + rest) is Failed && listed_routes(
            seq![message] + rest,
        ).len() == 0,
{
    let one = seq![message];
    assert(one.drop_first() =~= seq![]);
    assert(listed_routes(one.drop_first()) =~= seq![]);
    assert((one + rest)[0] == message);
    if message.kind == 24 && default_route(message.payload) is Some {
        assert(listed_routes(one) =~= seq![default_route(message.payload)->0]);
    }
}

/// What one buffer of a dump comes to: an empty one ends it, an error spoils it, and else it
/// holds the routes of its messages.
pub proof fn buffers_hold_their_routes(data: Seq<u8>)
    ensures
        data.len() == 0 ==> dump_chunk(data) == DumpChunkView::Done(seq![]),
        data.len() > 0 && goes_on(messages(data)) ==> dump_chunk(data) == DumpChunkView::More(
            listed_routes(messages(data)),
        ),
{
    if goes_on(messages(data)) {
        routes_of_messages_add_up(messages(data), seq![]);
    }
}

/// The line that the `i`-th route of a buffer has, by the name of its own interface.
pub open spec fn own_line(found: Seq<DefaultRouteView>, devs: Seq<Option<String>>, i: int) -> Option<
    Seq<char>,
> {
    route_line(
        found[i],
        if i < devs.len() {
            text_of(devs[i])
        } else {
            None
        },
    )
}

/// Every route of a buffer is listed with the name of its own interface, and every line that is
/// added is that of such a route. The routes found before stay in front, in their order.
pub proof fn routes_are_named_by_their_interface(
    list: Seq<Seq<char>>,
    found: Seq<DefaultRouteView>,
    devs: Seq<Option<String>>,
)
    ensures
        ({
            let all = collected(list, found, devs);
            &&& list.len() <= all.len()
            &&& all.take(list.len() as int) == list
            &&& forall|i: int|
                #![trigger found[i]]
                0 <= i < found.len() ==> (own_line(found, devs, i) matches Some(line)
                    ==> all.contains(line))
            &&& forall|k: int|
                list.len() <= k < all.len() ==> exists|i: int|
                    0 <= i < found.len() && own_line(found, devs, i) == Some(#[trigger] all[k])
        }),
    decreases found.len(),
{
    let all = collected(list, found, devs);
    if found.len() == 0 {
        assert(all.take(list.len() as int) =~= list);
    } else {
        let n = found.len() - 1;
        let head = found.drop_last();
        let before = collected(list, head, devs);
        routes_are_named_by_their_interface(list, head, devs);
        let line = own_line(found, devs, n);
        assert(all == with_line(before, line));
        assert(all.take(before.len() as int) =~= before);
        assert(all.take(list.len() as int) =~= before.take(list.len() as int));
        assert forall|i: int|
            #![trigger found[i]]
            0 <= i < found.len() implies (own_line(found, devs, i) matches Some(given)
            ==> all.contains(given)) by {
            if let Some(given) = own_line(found, devs, i) {
                if i < n {
                    assert(head[i] == found[i]);
                    assert(own_line(head, devs, i) == Some(given));
                    let k = choose|k: int| 0 <= k < before.len() && before[k] == given;
                    assert(all[k] == given);
                } else if before.contains(given) {
                    let k = choose|k: int| 0 <= k < before.len() && before[k] == given;
                    assert(all[k] == given);
                } else {
                    assert(all[before.len() as int] == given);
                }
            }
        }
        assert forall|k: int| list.len() <= k < all.len() implies exists|i: int|
            0 <= i < found.len() && own_line(found, devs, i) == Some(#[trigger] all[k]) by {
            if k < before.len() {
                assert(all[k] == before[k]);
                let i = choose|i: int|
                    0 <= i < head.len() && own_line(head, devs, i) == Some(before[k]);
                assert(own_line(found, devs, i) == own_line(head, devs, i));
            } else {
                assert(own_line(found, devs, n) == Some(all[k]));
            }
        }
    }
}

/// Routes are listed in the order in which the kernel sends them: what the first of them come to
/// is the beginning of what all of them come to.
pub proof fn routes_keep_their_order(
    list: Seq<Seq<char>>,
    found: Seq<DefaultRouteView>,
    devs: Seq<Option<String>>,
    n: int,
)
    requires
        0 <= n <= found.len(),
    ensures
        ({
            let some = collected(list, found.take(n), devs);
            let all = collected(list, found, devs);
            some.len() <= all.len() && all.take(some.len() as int) == some
        }),
    decreases found.len(),
{
    let some = collected(list, found.take(n), devs);
    let all = collected(list, found, devs);
    if n == found.len() {
        assert(found.take(n) =~= found);
        assert(all.take(all.len() as int) =~= all);
    } else {
        routes_keep_their_order(list, found.drop_last(), devs, n);
        assert(found.drop_last().take(n) =~= found.take(n));
        let before = collected(list, found.drop_last(), devs);
        assert(all.take(some.len() as int) =~= before.take(some.len() as int));
    }
}

/// Every route that a dump comes across is in what it lists, as long as the dump does not fail.
pub proof fn dumped_routes_are_listed(
    routes: Seq<Seq<char>>,
    bytes: Vec<u8>,
    devs: Seq<Option<String>>,
)
    requires
        !(dump_chunk(bytes@) is Failed),
    ensures
        ({
            let all = match dumps(routes, Received::Data(bytes), devs) {
                DumpStepView::Again(found) => found,
                DumpStepView::Finished(found) => found,
            };
            let found = match dump_chunk(bytes@) {
                DumpChunkView::More(found) => found,
                DumpChunkView::Done(found) => found,
                DumpChunkView::Failed => seq![],
            };
            &&& routes.len() <= all.len()
            &&& all.take(routes.len() as int) == routes
            &&& forall|i: int|
                #![trigger found[i]]
                0 <= i < found.len() ==> (own_line(found, devs, i) matches Some(line)
                    ==> all.contains(line))
        }),
        dumps(routes, Received::Data(bytes), devs) is Finished <==> dump_chunk(bytes@) is Done,
{
    let found = match dump_chunk(bytes@) {
        DumpChunkView::More(found) => found,
        DumpChunkView::Done(found) => found,
        DumpChunkView::Failed => seq![],
    };
    routes_are_named_by_their_interface(routes, found, devs);
}

/// Whether a text is one word.
pub open spec fn is_word(s: Seq<char>) -> bool {
    s.len() > 0 && forall|i: int| 0 <= i < s.len() ==> !is_space(#[trigger] s[i])
}

proof fn lemma_append_pair(line: Seq<char>, key: Seq<char>, value: Seq<char>, both: Seq<char>)
    requires
        is_word(key),
        is_word(value),
        both == line + seq![' '] + (key + seq![' '] + value),
    ensures
        words(both) == words(line) + seq![key, value],
{
    words_are_separated(key, ' ', value);
    words_are_separated(line, ' ', key + seq![' '] + value);
    one_word(key);
    one_word(value);
    assert(seq![key] + seq![value] =~= seq![key, value]);
}

/// The line of a route says what the route is, word by word: its gateway behind `via`, the name
/// of its interface behind `dev`, and its metric, unless it is 0, behind `metric`.
pub proof fn lines_say_what_the_route_is(route: DefaultRouteView, name: Option<Seq<char>>)
    requires
        route.gateway matches Some(gateway) ==> is_word(gateway),
        name matches Some(dev) ==> is_word(dev),
        route.gateway is Some || (route.oif is Some && name is Some),
    ensures
        route_line(route, name) matches Some(line) && words(line) == seq!["default"@] + (
        match route.gateway {
            Some(gateway) => seq!["via"@, gateway],
            None => seq![],
        }) + (if route.oif is Some && name is Some {
            seq!["dev"@, name->0]
        } else {
            seq![]
        }) + (match route.metric {
            Some(metric) => if metric == 0 {
                seq![]
            } else {
                seq!["metric"@, decimal(metric as nat)]
            },
            None => seq![],
        }),
        route.gateway is None && (route.oif is None || name is None) ==> route_line(route, name)
            is None,
{
    reveal_strlit("default");
    reveal_strlit("via");
    reveal_strlit(" via ");
    reveal_strlit("dev");
    reveal_strlit(" dev ");
    reveal_strlit("metric");
    reveal_strlit(" metric ");
    let start = "default"@;
    assert(is_word(start));
    assert(is_word("via"@));
    assert(is_word("dev"@));
    assert(is_word("metric"@));
    one_word(start);
    let line = route_line(route, name)->0;
    let with_gateway = match route.gateway {
        Some(gateway) => start + " via "@ + gateway,
        None => start,
    };
    if let Some(gateway) = route.gateway {
        assert(with_gateway =~= start + seq![' '] + ("via"@ + seq![' '] + gateway));
        lemma_append_pair(start, "via"@, gateway, with_gateway);
    }
    let named = route.oif is Some && name is Some;
    let with_dev = if named {
        with_gateway + " dev "@ + name->0
    } else {
        with_gateway
    };
    if named {
        assert(with_dev =~= with_gateway + seq![' '] + ("dev"@ + seq![' '] + name->0));
        lemma_append_pair(with_gateway, "dev"@, name->0, with_dev);
    }
    if route.metric matches Some(metric) && metric != 0 {
        let metric = route.metric->0;
        let numeral = decimal(metric as nat);
        decimal_is_digits(metric as nat, 0);
        assert forall|i: int| 0 <= i < numeral.len() implies !is_space(#[trigger] numeral[i]) by {
            decimal_is_digits(metric as nat, i);
        }
        assert(line =~= with_dev + seq![' '] + ("metric"@ + seq![' '] + numeral));
        lemma_append_pair(with_dev, "metric"@, numeral, line);
    } else {
        assert(line =~= with_dev);
    }
    assert(words(line) =~= seq!["default"@] + (match route.gateway {
        Some(gateway) => seq!["via"@, gateway],
        None => seq![],
    }) + (if named {
        seq!["dev"@, name->0]
    } else {
        seq![]
    }) + (match route.metric {
        Some(metric) => if metric == 0 {
            seq![]
        } else {
            seq!["metric"@, decimal(metric as nat)]
        },
        None => seq![],
    }));
}

/// The name of an interface is what stands in front of the first zero byte, where that is UTF-8.
pub proof fn names_end_at_a_zero(name: Seq<u8>, rest: Seq<u8>)
    requires
        !name.contains(0u8),
    ensures
        name_in(name + seq![0u8] + rest) == (if vstd::utf8::valid_utf8(name) {
            Some(vstd::utf8::decode_utf8(name))
        } else {
            None
        }),
        name_in(name) == name_in(name + seq![0u8] + rest),
{
    let buffer = name + seq![0u8] + rest;
    assert forall|i: int| 0 <= i < name.len() implies #[trigger] buffer[i] != 0u8 by {
        assert(buffer[i] == name[i]);
        assert(name.contains(name[i]));
    }
    lemma_first_at(buffer, 0u8, name.len());
    assert(buffer.take(name.len() as int) =~= name);
    assert forall|i: int| 0 <= i < name.len() implies #[trigger] name[i] != 0u8 by {
        assert(name.contains(name[i]));
    }
    lemma_first_at(name, 0u8, name.len());
    assert(name.take(name.len() as int) =~= name);
}

/// A request for a dump is one message of 28 bytes that asks for all routes of a family and for
/// nothing else.
pub proof fn dump_requests_ask_for_all_routes(request: Seq<u8>, family: u8)
    requires
        is_dump_request(request, family),
    ensures
        request.len() == 28,
        native_u32(request.take(4)) == 28,
        native_u16(request.subrange(4, 6)) == 26,
        native_u16(request.subrange(6, 8)) == 0x301,
        native_u32(request.subrange(8, 12)) == 1,
        native_u32(request.subrange(12, 16)) == 0,
        request[16] == family,
        forall|i: int| 17 <= i < 28 ==> #[trigger] request[i] == 0,
{
}

/// A buffer that ends a dump holds the routes in front of its end, and one that reports an error
/// before that holds none.
pub proof fn last_buffers_hold_their_routes(
    data: Seq<u8>,
    front: Seq<Message>,
    end: Message,
    rest: Seq<Message>,
)
    requires
        messages(data) == front + (seq![end] + rest),
        goes_on(front),
    ensures
        end.kind == 3 ==> dump_chunk(data) == DumpChunkView::Done(listed_routes(front)),
        end.kind == 2 ==> dump_chunk(data) == DumpChunkView::Failed,
{
    routes_of_messages_add_up(front, seq![end] + rest);
    messages_list_their_route(end, rest);
    assert((front + (seq![end] + rest))[front.len() as int] == end);
    assert(messages(data).len() > 0);
    if data.len() == 0 {
        assert(messages(data) =~= seq![]);
    }
    if end.kind == 3 || end.kind == 2 {
        assert(listed_routes(front) + listed_routes(seq![end] + rest) =~= listed_routes(front));
    }
}

/// An address is read by its family: four bytes of IPv4, sixteen of IPv6, and nothing else.
pub proof fn addresses_depend_on_their_family(family: u8, bytes: Seq<u8>)
    ensures
        family == 2 && bytes.len() >= 4 ==> (address_text(family, bytes) matches Some(text)
            && reads_as_ipv4(text, bytes)),
        family == 10 && bytes.len() >= 16 ==> address_text(family, bytes) == Some(
            ipv6_text(bytes.take(16)),
        ),
        address_text(family, bytes) is Some ==> family == 2 && bytes.len() >= 4 || family == 10
            && bytes.len() >= 16,
{
    if family == 2 && bytes.len() >= 4 {
        ipv4_reads_back(bytes.take(4));
    }
}

/// A dump that does not fail ends exactly with the buffer that says so or with an empty one.
pub proof fn dumps_go_on_until_the_end(
    routes: Seq<Seq<char>>,
    bytes: Vec<u8>,
    devs: Seq<Option<String>>,
)
    ensures
        bytes@.len() == 0 ==> dumps(routes, Received::Data(bytes), devs) == DumpStepView::Finished(
            routes,
        ),
        bytes@.len() > 0 && goes_on(messages(bytes@)) ==> dumps(
            routes,
            Received::Data(bytes),
            devs,
        ) is Again,
        dumps(routes, Received::Interrupted, devs) == DumpStepView::Again(routes),
        dumps(routes, Received::Failed, devs) == DumpStepView::Finished(seq![]),
{
    buffers_hold_their_routes(bytes@);
}

/// A length that is shorter than the header or reaches beyond the end ends the reading, of
/// attributes and of messages.
pub proof fn malformed_lengths_end_the_reading(data: Seq<u8>)
    ensures
        data.len() < 4 || native_u16(data.take(2)) < 4 || native_u16(data.take(2)) > data.len()
            ==> attribute_list(data).len() == 0,
        data.len() < 16 || native_u32(data.take(4)) < 16 || native_u32(data.take(4)) > data.len()
            ==> messages(data).len() == 0,
{
}

} // verus!
