//! What the command line prints, as a reader of JSON sees it.
//!
//! The reader here takes JSON without white space, which is all that the command line prints.
use crate::cli::{
    ack_result, bool_text, call_result, child_text, children_text, escape, escaped, json_string,
    quoted, quoted_text_reads_back, run_step, state_result, state_text, CallOutcome, RunStepView,
};
use crate::rootd::{ChildHandle, PayloadView, SessionStateView};
use crate::text::{
    begins_with, decimal, decimal_is_digits, is_digit, signed_decimal, signed_decimal_reads_back,
    signed_value,
};
use vstd::prelude::*;

verus! {

broadcast use vstd::string::group_string_axioms;

/// A value in JSON.
pub enum Json {
    Text(Seq<char>),
    Flag(bool),
    Number(int),
    List(Seq<Json>),
    Object(Seq<(Seq<char>, Json)>),
}

/// How many digits a text begins with.
pub open spec fn digit_run(s: Seq<char>) -> nat
    decreases s.len(),
{
    if s.len() == 0 || !is_digit(s[0]) {
        0
    } else {
        1 + digit_run(s.skip(1))
    }
}

/// Reads a number: the number, and what follows it.
pub open spec fn json_number(s: Seq<char>) -> Option<(Json, Seq<char>)> {
    let sign: int = if s.len() > 0 && s[0] == '-' {
        1
    } else {
        0
    };
    let digits = digit_run(s.skip(sign));
    if digits == 0 {
        None
    } else {
        Some((Json::Number(signed_value(s.take(sign + digits))), s.skip(sign + digits)))
    }
}

/// Reads a value: the value, and what follows it.
pub open spec fn json_value(s: Seq<char>) -> Option<(Json, Seq<char>)>
    decreases s.len(), 1nat,
{
    if s.len() == 0 {
        None
    } else if s[0] == '"' {
        match json_string(s) {
            Some((text, rest)) => Some((Json::Text(text), rest)),
            None => None,
        }
    } else if s[0] == '[' {
        if s.len() > 1 && s[1] == ']' {
            Some((Json::List(seq![]), s.skip(2)))
        } else {
            match json_items(s.skip(1)) {
                Some((items, rest)) => Some((Json::List(items), rest)),
                None => None,
            }
        }
    } else if s[0] == '{' {
        if s.len() > 1 && s[1] == '}' {
            Some((Json::Object(seq![]), s.skip(2)))
        } else {
            match json_members(s.skip(1)) {
                Some((members, rest)) => Some((Json::Object(members), rest)),
                None => None,
            }
        }
    } else if begins_with(s, "true"@) {
        Some((Json::Flag(true), s.skip(4)))
    } else if begins_with(s, "false"@) {
        Some((Json::Flag(false), s.skip(5)))
    } else {
        json_number(s)
    }
}

/// Reads the values of a list behind its opening bracket.
pub open spec fn json_items(s: Seq<char>) -> Option<(Seq<Json>, Seq<char>)>
    decreases s.len(), 2nat,
{
    match json_value(s) {
        Some((item, rest)) => if rest.len() == 0 || rest.len() >= s.len() {
            None
        } else if rest[0] == ']' {
            Some((seq![item], rest.skip(1)))
        } else if rest[0] == ',' {
            match json_items(rest.skip(1)) {
                Some((items, end)) => Some((seq![item] + items, end)),
                None => None,
            }
        } else {
            None
        },
        None => None,
    }
}

/// Reads the members of an object behind its opening brace.
pub open spec fn json_members(s: Seq<char>) -> Option<(Seq<(Seq<char>, Json)>, Seq<char>)>
    decreases s.len(), 2nat,
{
    match json_string(s) {
        Some((key, rest)) => if rest.len() == 0 || rest.len() >= s.len() || rest[0] != ':' {
            None
        } else {
            match json_value(rest.skip(1)) {
                Some((value, more)) => if more.len() == 0 || more.len() >= s.len() {
                    None
                } else if more[0] == '}' {
                    Some((seq![(key, value)], more.skip(1)))
                } else if more[0] == ',' {
                    match json_members(more.skip(1)) {
                        Some((members, end)) => Some((seq![(key, value)] + members, end)),
                        None => None,
                    }
                } else {
                    None
                },
                None => None,
            }
        },
        None => None,
    }
}

/// Whether nothing that continues a number follows.
pub open spec fn is_end(rest: Seq<char>) -> bool {
    rest.len() == 0 || !is_digit(rest[0])
}

/// Whether a text reads as a value, whatever follows it that does not continue a number.
pub open spec fn reads_as(text: Seq<char>, value: Json) -> bool {
    &&& text.len() > 0
    &&& text[0] != ']' && text[0] != '}'
    &&& forall|rest: Seq<char>|
        is_end(rest) ==> #[trigger] json_value(text + rest) == Some((value, rest))
}

proof fn lemma_text(value: Seq<char>)
    ensures
        reads_as(quoted(value), Json::Text(value)),
{
    assert forall|rest: Seq<char>| is_end(rest) implies #[trigger] json_value(quoted(value) + rest)
        == Some((Json::Text(value), rest)) by {
        quoted_text_reads_back(value, rest);
        assert((quoted(value) + rest)[0] == '"');
    }
}

proof fn lemma_flag(value: bool)
    ensures
        reads_as(bool_text(value), Json::Flag(value)),
{
    reveal_strlit("true");
    reveal_strlit("false");
    let text = bool_text(value);
    assert forall|rest: Seq<char>| is_end(rest) implies #[trigger] json_value(text + rest) == Some(
        (Json::Flag(value), rest),
    ) by {
        let s = text + rest;
        assert(s.take(text.len() as int) =~= text);
        assert(s.skip(text.len() as int) =~= rest);
        if !value {
            assert(s.take(4)[0] == 'f');
        }
    }
}

proof fn lemma_digit_run(digits: Seq<char>, rest: Seq<char>)
    requires
        forall|i: int| 0 <= i < digits.len() ==> is_digit(#[trigger] digits[i]),
        is_end(rest),
    ensures
        digit_run(digits + rest) == digits.len(),
    decreases digits.len(),
{
    let s = digits + rest;
    if digits.len() == 0 {
        assert(s =~= rest);
    } else {
        assert(is_digit(digits[0]));
        assert forall|i: int| 0 <= i < digits.skip(1).len() implies is_digit(
            #[trigger] digits.skip(1)[i],
        ) by {
            assert(digits.skip(1)[i] == digits[i + 1]);
        }
        lemma_digit_run(digits.skip(1), rest);
        assert(s.skip(1) =~= digits.skip(1) + rest);
    }
}

proof fn lemma_number(n: int)
    ensures
        reads_as(signed_decimal(n), Json::Number(n)),
{
    reveal_strlit("true");
    reveal_strlit("false");
    signed_decimal_reads_back(n);
    let text = signed_decimal(n);
    let size = if n < 0 {
        (-n) as nat
    } else {
        n as nat
    };
    let digits = decimal(size);
    decimal_is_digits(size, 0);
    assert forall|i: int| 0 <= i < digits.len() implies is_digit(#[trigger] digits[i]) by {
        decimal_is_digits(size, i);
    }
    assert(text[0] == '-' || is_digit(text[0]));
    assert forall|rest: Seq<char>| is_end(rest) implies #[trigger] json_value(text + rest) == Some(
        (Json::Number(n), rest),
    ) by {
        let s = text + rest;
        lemma_digit_run(digits, rest);
        assert(s[0] == text[0]);
        let sign: int = if n < 0 {
            1
        } else {
            0
        };
        assert(s.skip(sign) =~= digits + rest);
        assert(s.take(sign + digits.len()) =~= text);
        assert(s.skip(sign + digits.len()) =~= rest);
        if begins_with(s, "true"@) {
            assert(s.take(4)[0] == 't');
        }
        if begins_with(s, "false"@) {
            assert(s.take(5)[0] == 'f');
        }
    }
}

/// A member of an object: its key, the text of its value, and the value.
pub struct Member {
    pub key: Seq<char>,
    pub text: Seq<char>,
    pub value: Json,
}

/// Members in JSON, with commas between them.
pub open spec fn members_text(list: Seq<Member>) -> Seq<char>
    decreases list.len(),
{
    if list.len() == 0 {
        seq![]
    } else {
        let first = quoted(list[0].key) + seq![':'] + list[0].text;
        if list.len() == 1 {
            first
        } else {
            first + seq![','] + members_text(list.drop_first())
        }
    }
}

/// The keys and values of members.
pub open spec fn pairs(list: Seq<Member>) -> Seq<(Seq<char>, Json)> {
    Seq::new(list.len(), |i: int| (list[i].key, list[i].value))
}

proof fn lemma_members(list: Seq<Member>, rest: Seq<char>)
    requires
        list.len() > 0,
        forall|i: int| 0 <= i < list.len() ==> reads_as((#[trigger] list[i]).text, list[i].value),
    ensures
        json_members(members_text(list) + seq!['}'] + rest) == Some((pairs(list), rest)),
    decreases list.len(),
{
    let s = members_text(list) + seq!['}'] + rest;
    let first = list[0];
    let tail = list.drop_first();
    assert(reads_as(list[0].text, list[0].value));
    let follow = if list.len() == 1 {
        seq!['}'] + rest
    } else {
        seq![','] + (members_text(tail) + seq!['}'] + rest)
    };
    assert(s =~= quoted(first.key) + (seq![':'] + (first.text + follow)));
    quoted_text_reads_back(first.key, seq![':'] + (first.text + follow));
    assert((seq![':'] + (first.text + follow)).skip(1) =~= first.text + follow);
    assert(is_end(follow));
    assert(json_value(first.text + follow) == Some((first.value, follow)));
    if list.len() == 1 {
        assert(follow.skip(1) =~= rest);
        assert(pairs(list) =~= seq![(first.key, first.value)]);
    } else {
        assert forall|i: int| 0 <= i < tail.len() implies reads_as(
            (#[trigger] tail[i]).text,
            tail[i].value,
        ) by {
            assert(tail[i] == list[i + 1]);
        }
        lemma_members(tail, rest);
        assert(follow.skip(1) =~= members_text(tail) + seq!['}'] + rest);
        assert(pairs(list) =~= seq![(first.key, first.value)] + pairs(tail));
    }
}

proof fn lemma_object(list: Seq<Member>, text: Seq<char>)
    requires
        list.len() > 0,
        forall|i: int| 0 <= i < list.len() ==> reads_as((#[trigger] list[i]).text, list[i].value),
        text == seq!['{'] + members_text(list) + seq!['}'],
    ensures
        reads_as(text, Json::Object(pairs(list))),
{
    assert forall|rest: Seq<char>| is_end(rest) implies #[trigger] json_value(text + rest) == Some(
        (Json::Object(pairs(list)), rest),
    ) by {
        let s = text + rest;
        lemma_members(list, rest);
        assert(s.skip(1) =~= members_text(list) + seq!['}'] + rest);
        assert(s[1] == '"') by {
            let first = quoted(list[0].key) + seq![':'] + list[0].text;
            assert(first[0] == '"');
            assert(members_text(list)[0] == first[0]);
            assert(s[1] == members_text(list)[0]);
        }
    }
}

/// Texts of values, with commas between them.
pub open spec fn items_text(texts: Seq<Seq<char>>) -> Seq<char>
    decreases texts.len(),
{
    if texts.len() == 0 {
        seq![]
    } else if texts.len() == 1 {
        texts[0]
    } else {
        texts[0] + seq![','] + items_text(texts.drop_first())
    }
}

proof fn lemma_items(texts: Seq<Seq<char>>, values: Seq<Json>, rest: Seq<char>)
    requires
        texts.len() == values.len() > 0,
        forall|i: int| 0 <= i < texts.len() ==> reads_as(#[trigger] texts[i], values[i]),
    ensures
        json_items(items_text(texts) + seq![']'] + rest) == Some((values, rest)),
    decreases texts.len(),
{
    let s = items_text(texts) + seq![']'] + rest;
    let tail = texts.drop_first();
    let more = values.drop_first();
    assert(reads_as(texts[0], values[0]));
    let follow = if texts.len() == 1 {
        seq![']'] + rest
    } else {
        seq![','] + (items_text(tail) + seq![']'] + rest)
    };
    assert(s =~= texts[0] + follow);
    assert(is_end(follow));
    assert(json_value(texts[0] + follow) == Some((values[0], follow)));
    if texts.len() == 1 {
        assert(follow.skip(1) =~= rest);
        assert(values =~= seq![values[0]]);
    } else {
        assert forall|i: int| 0 <= i < tail.len() implies reads_as(#[trigger] tail[i], more[i]) by {
            assert(tail[i] == texts[i + 1]);
        }
        lemma_items(tail, more, rest);
        assert(follow.skip(1) =~= items_text(tail) + seq![']'] + rest);
        assert(values =~= seq![values[0]] + more);
    }
}

proof fn lemma_list(texts: Seq<Seq<char>>, values: Seq<Json>, text: Seq<char>)
    requires
        texts.len() == values.len(),
        forall|i: int| 0 <= i < texts.len() ==> reads_as(#[trigger] texts[i], values[i]),
        text == seq!['['] + items_text(texts) + seq![']'],
    ensures
        reads_as(text, Json::List(values)),
{
    assert forall|rest: Seq<char>| is_end(rest) implies #[trigger] json_value(text + rest) == Some(
        (Json::List(values), rest),
    ) by {
        let s = text + rest;
        if texts.len() == 0 {
            assert(s.skip(2) =~= rest);
            assert(values =~= seq![]);
        } else {
            lemma_items(texts, values, rest);
            assert(s.skip(1) =~= items_text(texts) + seq![']'] + rest);
            assert(reads_as(texts[0], values[0]));
            assert(items_text(texts)[0] == texts[0][0]);
            assert(s[1] == texts[0][0]);
        }
    }
}

proof fn lemma_plain(s: Seq<char>)
    requires
        forall|i: int| 0 <= i < s.len() ==> escape(#[trigger] s[i]) == seq![s[i]],
    ensures
        quoted(s) == seq!['"'] + s + seq!['"'],
    decreases s.len(),
{
    if s.len() == 0 {
        assert(escaped(s) =~= s);
    } else {
        assert(escape(s[0]) == seq![s[0]]);
        assert forall|i: int| 0 <= i < s.skip(1).len() implies escape(#[trigger] s.skip(1)[i])
            == seq![s.skip(1)[i]] by {
            assert(s.skip(1)[i] == s[i + 1]);
        }
        lemma_plain(s.skip(1));
        assert(quoted(s.skip(1)) =~= seq!['"'] + escaped(s.skip(1)) + seq!['"']);
        assert(escaped(s.skip(1)) =~= quoted(s.skip(1)).subrange(1, quoted(s.skip(1)).len() - 1));
        assert(escaped(s.skip(1)) =~= s.skip(1));
        assert(escaped(s) =~= s);
    }
}

/// A child as a reader of JSON sees it.
pub open spec fn child_value(child: ChildHandle) -> Json {
    Json::Object(
        seq![
            ("kind"@, Json::Number(child.kind as int)),
            ("pid"@, Json::Number(child.pid as int)),
            ("running"@, Json::Flag(child.running)),
        ],
    )
}

/// A child reads back from its text.
pub proof fn child_reads_back(child: ChildHandle)
    ensures
        reads_as(child_text(child), child_value(child)),
{
    reveal_strlit("kind");
    reveal_strlit("pid");
    reveal_strlit("running");
    reveal_strlit("{\"kind\":");
    reveal_strlit(",\"pid\":");
    reveal_strlit(",\"running\":");
    reveal_strlit("}");
    lemma_number(child.kind as int);
    lemma_number(child.pid as int);
    lemma_flag(child.running);
    lemma_plain("kind"@);
    lemma_plain("pid"@);
    lemma_plain("running"@);
    let kind = Member {
        key: "kind"@,
        text: signed_decimal(child.kind as int),
        value: Json::Number(child.kind as int),
    };
    let pid = Member {
        key: "pid"@,
        text: signed_decimal(child.pid as int),
        value: Json::Number(child.pid as int),
    };
    let running = Member {
        key: "running"@,
        text: bool_text(child.running),
        value: Json::Flag(child.running),
    };
    let list = seq![kind, pid, running];
    assert(list.drop_first() =~= seq![pid, running]);
    assert(seq![pid, running].drop_first() =~= seq![running]);
    let last = members_text(seq![running]);
    let middle = members_text(seq![pid, running]);
    assert(last =~= quoted("running"@) + seq![':'] + running.text);
    assert(middle =~= quoted("pid"@) + seq![':'] + pid.text + seq![','] + last);
    assert(members_text(list) =~= quoted("kind"@) + seq![':'] + kind.text + seq![','] + middle);
    assert(child_text(child) =~= seq!['{'] + members_text(list) + seq!['}']);
    lemma_object(list, child_text(child));
    assert(pairs(list) =~= seq![
        ("kind"@, Json::Number(child.kind as int)),
        ("pid"@, Json::Number(child.pid as int)),
        ("running"@, Json::Flag(child.running)),
    ]);
}

proof fn lemma_items_push(texts: Seq<Seq<char>>, last: Seq<char>)
    requires
        texts.len() > 0,
    ensures
        items_text(texts.push(last)) == items_text(texts) + seq![','] + last,
    decreases texts.len(),
{
    let all = texts.push(last);
    assert(all.drop_first() =~= texts.drop_first().push(last));
    if texts.len() == 1 {
        assert(all.drop_first() =~= seq![last]);
        assert(items_text(seq![last]) =~= last);
    } else {
        lemma_items_push(texts.drop_first(), last);
        assert(items_text(all) =~= items_text(texts) + seq![','] + last);
    }
}

/// The texts of children.
pub open spec fn child_texts(children: Seq<ChildHandle>) -> Seq<Seq<char>> {
    Seq::new(children.len(), |i: int| child_text(children[i]))
}

/// Children as a reader of JSON sees them.
pub open spec fn child_values(children: Seq<ChildHandle>) -> Seq<Json> {
    Seq::new(children.len(), |i: int| child_value(children[i]))
}

proof fn lemma_children(children: Seq<ChildHandle>)
    ensures
        children_text(children) == items_text(child_texts(children)),
    decreases children.len(),
{
    reveal_strlit(",");
    if children.len() > 1 {
        let head = children.drop_last();
        lemma_children(head);
        lemma_items_push(child_texts(head), child_text(children.last()));
        assert(child_texts(children) =~= child_texts(head).push(child_text(children.last())));
        assert(","@ =~= seq![',']);
    } else if children.len() == 0 {
        assert(child_texts(children) =~= seq![]);
    }
}

/// The state of the daemon as a reader of JSON sees it.
pub open spec fn state_value(state: SessionStateView, version: Seq<char>) -> Json {
    Json::Object(
        seq![
            ("running"@, Json::Flag(true)),
            ("version"@, Json::Text(version)),
            ("tunnel"@, Json::Flag(state.routing_active)),
            ("orphaned"@, Json::Flag(state.orphaned)),
            ("app_connected"@, Json::Flag(state.app_connected)),
            ("tunnel_name"@, Json::Text(state.tunnel_name)),
            ("tproxy_bytes"@, Json::Number(state.tproxy_mark_bytes as int)),
            ("children"@, Json::List(child_values(state.children))),
        ],
    )
}

proof fn lemma_keys()
    ensures
        quoted("running"@) == seq!['"'] + "running"@ + seq!['"'],
        quoted("version"@) == seq!['"'] + "version"@ + seq!['"'],
        quoted("tunnel"@) == seq!['"'] + "tunnel"@ + seq!['"'],
        quoted("orphaned"@) == seq!['"'] + "orphaned"@ + seq!['"'],
        quoted("app_connected"@) == seq!['"'] + "app_connected"@ + seq!['"'],
        quoted("tunnel_name"@) == seq!['"'] + "tunnel_name"@ + seq!['"'],
        quoted("tproxy_bytes"@) == seq!['"'] + "tproxy_bytes"@ + seq!['"'],
        quoted("children"@) == seq!['"'] + "children"@ + seq!['"'],
        quoted("error"@) == seq!['"'] + "error"@ + seq!['"'],
        quoted("ok"@) == seq!['"'] + "ok"@ + seq!['"'],
{
    reveal_strlit("running");
    reveal_strlit("version");
    reveal_strlit("tunnel");
    reveal_strlit("orphaned");
    reveal_strlit("app_connected");
    reveal_strlit("tunnel_name");
    reveal_strlit("tproxy_bytes");
    reveal_strlit("children");
    reveal_strlit("error");
    reveal_strlit("ok");
    lemma_plain("running"@);
    lemma_plain("version"@);
    lemma_plain("tunnel"@);
    lemma_plain("orphaned"@);
    lemma_plain("app_connected"@);
    lemma_plain("tunnel_name"@);
    lemma_plain("tproxy_bytes"@);
    lemma_plain("children"@);
    lemma_plain("error"@);
    lemma_plain("ok"@);
}

proof fn lemma_members_step(list: Seq<Member>)
    requires
        list.len() > 1,
    ensures
        members_text(list) == quoted(list[0].key) + seq![':'] + list[0].text + seq![',']
            + members_text(list.drop_first()),
{
}

proof fn lemma_first_labels()
    ensures
        "{\"running\":true,\"version\":"@ == seq!['{'] + (quoted("running"@) + seq![':'] + "true"@
            + seq![',']) + quoted("version"@) + seq![':'],
        ",\"tunnel\":"@ == seq![','] + quoted("tunnel"@) + seq![':'],
        ",\"orphaned\":"@ == seq![','] + quoted("orphaned"@) + seq![':'],
        ",\"app_connected\":"@ == seq![','] + quoted("app_connected"@) + seq![':'],
{
    lemma_keys();
    reveal_strlit("true");
    reveal_strlit("running");
    reveal_strlit("version");
    reveal_strlit("tunnel");
    reveal_strlit("orphaned");
    reveal_strlit("app_connected");
    reveal_strlit("{\"running\":true,\"version\":");
    reveal_strlit(",\"tunnel\":");
    reveal_strlit(",\"orphaned\":");
    reveal_strlit(",\"app_connected\":");
    assert("{\"running\":true,\"version\":"@ =~= seq!['{'] + (quoted("running"@) + seq![':']
        + "true"@ + seq![',']) + quoted("version"@) + seq![':']);
    assert(",\"tunnel\":"@ =~= seq![','] + quoted("tunnel"@) + seq![':']);
    assert(",\"orphaned\":"@ =~= seq![','] + quoted("orphaned"@) + seq![':']);
    assert(",\"app_connected\":"@ =~= seq![','] + quoted("app_connected"@) + seq![':']);
}

proof fn lemma_last_labels()
    ensures
        ",\"tunnel_name\":"@ == seq![','] + quoted("tunnel_name"@) + seq![':'],
        ",\"tproxy_bytes\":"@ == seq![','] + quoted("tproxy_bytes"@) + seq![':'],
        ",\"children\":["@ == seq![','] + quoted("children"@) + seq![':'] + seq!['['],
        "]}"@ == seq![']', '}'],
{
    lemma_keys();
    reveal_strlit("tunnel_name");
    reveal_strlit("tproxy_bytes");
    reveal_strlit("children");
    reveal_strlit(",\"tunnel_name\":");
    reveal_strlit(",\"tproxy_bytes\":");
    reveal_strlit(",\"children\":[");
    reveal_strlit("]}");
    assert(",\"tunnel_name\":"@ =~= seq![','] + quoted("tunnel_name"@) + seq![':']);
    assert(",\"tproxy_bytes\":"@ =~= seq![','] + quoted("tproxy_bytes"@) + seq![':']);
    assert(",\"children\":["@ =~= seq![','] + quoted("children"@) + seq![':'] + seq!['[']);
    assert("]}"@ =~= seq![']', '}']);
}

/// The members of the state of the daemon.
spec fn state_members(state: SessionStateView, version: Seq<char>) -> Seq<Member> {
    seq![
        Member { key: "running"@, text: "true"@, value: Json::Flag(true) },
        Member { key: "version"@, text: quoted(version), value: Json::Text(version) },
        Member {
            key: "tunnel"@,
            text: bool_text(state.routing_active),
            value: Json::Flag(state.routing_active),
        },
        Member {
            key: "orphaned"@,
            text: bool_text(state.orphaned),
            value: Json::Flag(state.orphaned),
        },
        Member {
            key: "app_connected"@,
            text: bool_text(state.app_connected),
            value: Json::Flag(state.app_connected),
        },
        Member {
            key: "tunnel_name"@,
            text: quoted(state.tunnel_name),
            value: Json::Text(state.tunnel_name),
        },
        Member {
            key: "tproxy_bytes"@,
            text: decimal(state.tproxy_mark_bytes as nat),
            value: Json::Number(state.tproxy_mark_bytes as int),
        },
        Member {
            key: "children"@,
            text: seq!['['] + items_text(child_texts(state.children)) + seq![']'],
            value: Json::List(child_values(state.children)),
        },
    ]
}

proof fn lemma_fold(front: Seq<char>, label: Seq<char>, text: Seq<char>, back: Seq<char>)
    ensures
        front + label + text + back == front + (label + text + back),
{
    assert(front + label + text + back =~= front + (label + text + back));
}

proof fn lemma_unfold(
    label: Seq<char>,
    key: Seq<char>,
    text: Seq<char>,
    tail: Seq<char>,
    back: Seq<char>,
)
    requires
        label == seq![','] + key + seq![':'],
        back == seq![','] + tail + seq!['}'],
    ensures
        label + text + back == seq![','] + (key + seq![':'] + text + seq![','] + tail) + seq!['}'],
{
    assert(label + text + back =~= seq![','] + (key + seq![':'] + text + seq![','] + tail) + seq![
        '}',
    ]);
}

proof fn lemma_state_members(state: SessionStateView, version: Seq<char>)
    ensures
        ({
            let t7 = quoted("children"@) + seq![':'] + (seq!['['] + items_text(
                child_texts(state.children),
            ) + seq![']']);
            let t6 = quoted("tproxy_bytes"@) + seq![':'] + decimal(state.tproxy_mark_bytes as nat)
                + seq![','] + t7;
            let t5 = quoted("tunnel_name"@) + seq![':'] + quoted(state.tunnel_name) + seq![',']
                + t6;
            let t4 = quoted("app_connected"@) + seq![':'] + bool_text(state.app_connected) + seq![
                ',',
            ] + t5;
            let t3 = quoted("orphaned"@) + seq![':'] + bool_text(state.orphaned) + seq![','] + t4;
            let t2 = quoted("tunnel"@) + seq![':'] + bool_text(state.routing_active) + seq![',']
                + t3;
            let t1 = quoted("version"@) + seq![':'] + quoted(version) + seq![','] + t2;
            members_text(state_members(state, version)) == quoted("running"@) + seq![':']
                + "true"@ + seq![','] + t1
        }),
{
    let m = state_members(state, version);
    let m1 = m.drop_first();
    let m2 = m1.drop_first();
    let m3 = m2.drop_first();
    let m4 = m3.drop_first();
    let m5 = m4.drop_first();
    let m6 = m5.drop_first();
    let m7 = m6.drop_first();
    lemma_members_step(m);
    lemma_members_step(m1);
    lemma_members_step(m2);
    lemma_members_step(m3);
    lemma_members_step(m4);
    lemma_members_step(m5);
    lemma_members_step(m6);
    assert(m7.len() == 1 && m7[0] == m[7]);
}

proof fn lemma_state_text(state: SessionStateView, version: Seq<char>)
    ensures
        state_text(state, version) == seq!['{'] + members_text(state_members(state, version))
            + seq!['}'],
{
    lemma_first_labels();
    lemma_last_labels();
    lemma_children(state.children);
    lemma_state_members(state, version);
    let items = items_text(child_texts(state.children));
    let bytes = decimal(state.tproxy_mark_bytes as nat);
    let name = quoted(state.tunnel_name);
    let connected = bool_text(state.app_connected);
    let orphaned = bool_text(state.orphaned);
    let tunnel = bool_text(state.routing_active);
    let t7 = quoted("children"@) + seq![':'] + (seq!['['] + items + seq![']']);
    let t6 = quoted("tproxy_bytes"@) + seq![':'] + bytes + seq![','] + t7;
    let t5 = quoted("tunnel_name"@) + seq![':'] + name + seq![','] + t6;
    let t4 = quoted("app_connected"@) + seq![':'] + connected + seq![','] + t5;
    let t3 = quoted("orphaned"@) + seq![':'] + orphaned + seq![','] + t4;
    let t2 = quoted("tunnel"@) + seq![':'] + tunnel + seq![','] + t3;
    let a0 = "{\"running\":true,\"version\":"@ + quoted(version);
    let a1 = a0 + ",\"tunnel\":"@ + tunnel;
    let a2 = a1 + ",\"orphaned\":"@ + orphaned;
    let a3 = a2 + ",\"app_connected\":"@ + connected;
    let a4 = a3 + ",\"tunnel_name\":"@ + name;
    let a5 = a4 + ",\"tproxy_bytes\":"@ + bytes;
    let r7 = ",\"children\":["@ + items + "]}"@;
    lemma_fold(a5, ",\"children\":["@, items, "]}"@);
    assert(state_text(state, version) == a5 + r7);
    assert(r7 =~= seq![','] + t7 + seq!['}']);
    let r6 = ",\"tproxy_bytes\":"@ + bytes + r7;
    lemma_unfold(",\"tproxy_bytes\":"@, quoted("tproxy_bytes"@), bytes, t7, r7);
    lemma_fold(a4, ",\"tproxy_bytes\":"@, bytes, r7);
    let r5 = ",\"tunnel_name\":"@ + name + r6;
    lemma_unfold(",\"tunnel_name\":"@, quoted("tunnel_name"@), name, t6, r6);
    lemma_fold(a3, ",\"tunnel_name\":"@, name, r6);
    let r4 = ",\"app_connected\":"@ + connected + r5;
    lemma_unfold(",\"app_connected\":"@, quoted("app_connected"@), connected, t5, r5);
    lemma_fold(a2, ",\"app_connected\":"@, connected, r5);
    let r3 = ",\"orphaned\":"@ + orphaned + r4;
    lemma_unfold(",\"orphaned\":"@, quoted("orphaned"@), orphaned, t4, r4);
    lemma_fold(a1, ",\"orphaned\":"@, orphaned, r4);
    let r2 = ",\"tunnel\":"@ + tunnel + r3;
    lemma_unfold(",\"tunnel\":"@, quoted("tunnel"@), tunnel, t3, r3);
    lemma_fold(a0, ",\"tunnel\":"@, tunnel, r3);
    assert(state_text(state, version) == a0 + r2);
    lemma_first_member(quoted("running"@), quoted("version"@), quoted(version), t2, r2);
}

proof fn lemma_first_member(
    running: Seq<char>,
    version: Seq<char>,
    text: Seq<char>,
    tail: Seq<char>,
    back: Seq<char>,
)
    requires
        back == seq![','] + tail + seq!['}'],
    ensures
        (seq!['{'] + (running + seq![':'] + "true"@ + seq![',']) + version + seq![':']) + text
            + back == seq!['{'] + (running + seq![':'] + "true"@ + seq![','] + (version + seq![':']
            + text + seq![','] + tail)) + seq!['}'],
{
    assert((seq!['{'] + (running + seq![':'] + "true"@ + seq![',']) + version + seq![':']) + text
        + back =~= seq!['{'] + (running + seq![':'] + "true"@ + seq![','] + (version + seq![':']
        + text + seq![','] + tail)) + seq!['}']);
}

/// Reading the printed state back gives the state, member by member: each flag, name and number
/// stands behind its own key, and so does each child.
pub proof fn state_reads_back(state: SessionStateView, version: Seq<char>, rest: Seq<char>)
    requires
        is_end(rest),
    ensures
        json_value(state_text(state, version) + rest) == Some((state_value(state, version), rest)),
        json_value(state_text(state, version) + rest) matches Some((Json::Object(found), end)) && {
            &&& found.len() == 8
            &&& found[0] == ("running"@, Json::Flag(true))
            &&& found[1] == ("version"@, Json::Text(version))
            &&& found[2] == ("tunnel"@, Json::Flag(state.routing_active))
            &&& found[3] == ("orphaned"@, Json::Flag(state.orphaned))
            &&& found[4] == ("app_connected"@, Json::Flag(state.app_connected))
            &&& found[5] == ("tunnel_name"@, Json::Text(state.tunnel_name))
            &&& found[6] == ("tproxy_bytes"@, Json::Number(state.tproxy_mark_bytes as int))
            &&& found[7] == ("children"@, Json::List(child_values(state.children)))
        },
{
    let list = state_members(state, version);
    lemma_state_text(state, version);
    lemma_flag(true);
    lemma_text(version);
    lemma_flag(state.routing_active);
    lemma_flag(state.orphaned);
    lemma_flag(state.app_connected);
    lemma_text(state.tunnel_name);
    lemma_number(state.tproxy_mark_bytes as int);
    let texts = child_texts(state.children);
    let values = child_values(state.children);
    assert forall|i: int| 0 <= i < texts.len() implies reads_as(#[trigger] texts[i], values[i]) by {
        child_reads_back(state.children[i]);
    }
    lemma_list(texts, values, seq!['['] + items_text(texts) + seq![']']);
    assert forall|i: int| 0 <= i < list.len() implies reads_as(
        (#[trigger] list[i]).text,
        list[i].value,
    ) by {
        assert(i == 0 || i == 1 || i == 2 || i == 3 || i == 4 || i == 5 || i == 6 || i == 7);
    }
    lemma_object(list, state_text(state, version));
    assert(Json::Object(pairs(list)) == state_value(state, version)) by {
        assert(pairs(list) =~= state_value(state, version)->Object_0);
    }
    assert(reads_as(state_text(state, version), state_value(state, version)));
}

proof fn lemma_same_value(a: SessionStateView, b: SessionStateView, version: Seq<char>)
    requires
        state_text(a, version) == state_text(b, version),
    ensures
        state_value(a, version) == state_value(b, version),
{
    let none = Seq::<char>::empty();
    assert(is_end(none));
    state_reads_back(a, version, none);
    state_reads_back(b, version, none);
}

proof fn lemma_state_value(a: SessionStateView, b: SessionStateView, version: Seq<char>)
    requires
        state_value(a, version) == state_value(b, version),
    ensures
        a.routing_active == b.routing_active,
        a.orphaned == b.orphaned,
        a.app_connected == b.app_connected,
        a.tunnel_name == b.tunnel_name,
        a.tproxy_mark_bytes == b.tproxy_mark_bytes,
        child_values(a.children) == child_values(b.children),
{
    let left = state_value(a, version)->Object_0;
    let right = state_value(b, version)->Object_0;
    assert(left[2] == right[2]);
    assert(left[3] == right[3]);
    assert(left[4] == right[4]);
    assert(left[5] == right[5]);
    assert(left[6] == right[6]);
    assert(left[7] == right[7]);
}

/// States that differ are printed differently.
pub proof fn different_states_have_different_texts(
    a: SessionStateView,
    b: SessionStateView,
    version: Seq<char>,
)
    requires
        state_text(a, version) == state_text(b, version),
    ensures
        a.routing_active == b.routing_active,
        a.orphaned == b.orphaned,
        a.app_connected == b.app_connected,
        a.tunnel_name == b.tunnel_name,
        a.tproxy_mark_bytes == b.tproxy_mark_bytes,
        a.children.len() == b.children.len(),
        forall|i: int|
            #![trigger a.children[i]]
            0 <= i < a.children.len() ==> {
                &&& a.children[i].kind == b.children[i].kind
                &&& a.children[i].pid == b.children[i].pid
                &&& a.children[i].running == b.children[i].running
            },
{
    lemma_same_value(a, b, version);
    lemma_state_value(a, b, version);
    lemma_child_values(a.children, b.children);
}

proof fn lemma_child_values(a: Seq<ChildHandle>, b: Seq<ChildHandle>)
    requires
        child_values(a) == child_values(b),
    ensures
        a.len() == b.len(),
        forall|i: int|
            #![trigger a[i]]
            0 <= i < a.len() ==> {
                &&& a[i].kind == b[i].kind
                &&& a[i].pid == b[i].pid
                &&& a[i].running == b[i].running
            },
{
    assert(child_values(a).len() == a.len() && child_values(b).len() == b.len());
    assert forall|i: int| #![trigger a[i]] 0 <= i < a.len() implies a[i].kind == b[i].kind
        && a[i].pid == b[i].pid && a[i].running == b[i].running by {
        assert(child_values(a)[i] == child_value(a[i]));
        assert(child_values(b)[i] == child_value(b[i]));
        lemma_child_value(a[i], b[i]);
    }
}

proof fn lemma_child_value(a: ChildHandle, b: ChildHandle)
    requires
        child_value(a) == child_value(b),
    ensures
        a.kind == b.kind,
        a.pid == b.pid,
        a.running == b.running,
{
    let one = child_value(a)->Object_0;
    let other = child_value(b)->Object_0;
    assert(one[0] == other[0] && one[1] == other[1] && one[2] == other[2]);
}

proof fn lemma_failure_text(flag: Seq<char>, label: Seq<char>, text: Seq<char>, message: Seq<char>)
    requires
        label == seq!['{'] + quoted(flag) + seq![':'] + "false"@ + seq![','] + quoted("error"@)
            + seq![':'],
        text == label + quoted(message) + seq!['}'],
    ensures
        reads_as(
            text,
            Json::Object(seq![(flag, Json::Flag(false)), ("error"@, Json::Text(message))]),
        ),
{
    lemma_flag(false);
    lemma_text(message);
    let list = seq![
        Member { key: flag, text: "false"@, value: Json::Flag(false) },
        Member { key: "error"@, text: quoted(message), value: Json::Text(message) },
    ];
    lemma_members_step(list);
    assert(list.drop_first() =~= seq![list[1]]);
    assert(members_text(seq![list[1]]) == quoted("error"@) + seq![':'] + quoted(message));
    assert(text =~= seq!['{'] + members_text(list) + seq!['}']);
    assert forall|i: int| 0 <= i < list.len() implies reads_as(
        (#[trigger] list[i]).text,
        list[i].value,
    ) by {
        assert(i == 0 || i == 1);
    }
    lemma_object(list, text);
    assert(pairs(list) =~= seq![(flag, Json::Flag(false)), ("error"@, Json::Text(message))]);
}

/// What `status` prints reads back as the state that the daemon answered, or as the news that it
/// is not running, with the error.
pub proof fn status_prints_what_was_answered(outcome: CallOutcome, version: Seq<char>)
    ensures
        run_step("status"@, Some(outcome), version) matches RunStepView::Print { line, code } && ({
            match call_result(outcome) {
                Ok(PayloadView::SessionState(state)) => code == 0 && json_value(line) == Some(
                    (state_value(state, version), Seq::<char>::empty()),
                ),
                Ok(_) => code == 1 && json_value(line) == Some(
                    (
                        Json::Object(
                            seq![
                                ("running"@, Json::Flag(false)),
                                ("error"@, Json::Text("unexpected reply"@)),
                            ],
                        ),
                        Seq::<char>::empty(),
                    ),
                ),
                Err(message) => code == 1 && json_value(line) == Some(
                    (
                        Json::Object(
                            seq![
                                ("running"@, Json::Flag(false)),
                                ("error"@, Json::Text(message)),
                            ],
                        ),
                        Seq::<char>::empty(),
                    ),
                ),
            }
        }),
{
    let none = Seq::<char>::empty();
    match state_result(outcome) {
        Ok(state) => {
            state_reads_back(state, version, none);
            assert(state_text(state, version) + none =~= state_text(state, version));
        },
        Err(message) => {
            lemma_keys();
            reveal_strlit("running");
            reveal_strlit("error");
            reveal_strlit("false");
            reveal_strlit("{\"running\":false,\"error\":");
            reveal_strlit("}");
            let label = "{\"running\":false,\"error\":"@;
            let text = label + quoted(message) + "}"@;
            assert(label =~= seq!['{'] + quoted("running"@) + seq![':'] + "false"@ + seq![',']
                + quoted("error"@) + seq![':']);
            assert("}"@ =~= seq!['}']);
            lemma_failure_text("running"@, label, text, message);
            assert(json_value(text + none) is Some);
            assert(text + none =~= text);
        },
    }
}

/// What `stop` prints reads back as success exactly if the daemon acknowledged, and else as the
/// error.
pub proof fn stop_prints_what_was_answered(outcome: CallOutcome, version: Seq<char>)
    ensures
        run_step("stop"@, Some(outcome), version) matches RunStepView::Print { line, code } && ({
            match call_result(outcome) {
                Ok(PayloadView::Ack) => code == 0 && json_value(line) == Some(
                    (Json::Object(seq![("ok"@, Json::Flag(true))]), Seq::<char>::empty()),
                ),
                Ok(_) => code == 1 && json_value(line) == Some(
                    (
                        Json::Object(
                            seq![
                                ("ok"@, Json::Flag(false)),
                                ("error"@, Json::Text("unexpected reply"@)),
                            ],
                        ),
                        Seq::<char>::empty(),
                    ),
                ),
                Err(message) => code == 1 && json_value(line) == Some(
                    (
                        Json::Object(
                            seq![("ok"@, Json::Flag(false)), ("error"@, Json::Text(message))],
                        ),
                        Seq::<char>::empty(),
                    ),
                ),
            }
        }),
{
    reveal_strlit("status");
    reveal_strlit("stop");
    assert("status"@.len() != "stop"@.len());
    let none = Seq::<char>::empty();
    lemma_keys();
    reveal_strlit("ok");
    reveal_strlit("true");
    reveal_strlit("false");
    reveal_strlit("error");
    reveal_strlit("{\"ok\":true}");
    reveal_strlit("{\"ok\":false,\"error\":");
    reveal_strlit("}");
    match ack_result(outcome) {
        Ok(_) => {
            lemma_flag(true);
            let list = seq![Member { key: "ok"@, text: "true"@, value: Json::Flag(true) }];
            let text = "{\"ok\":true}"@;
            assert(members_text(list) == quoted("ok"@) + seq![':'] + "true"@);
            assert(text =~= seq!['{'] + members_text(list) + seq!['}']);
            assert forall|i: int| 0 <= i < list.len() implies reads_as(
                (#[trigger] list[i]).text,
                list[i].value,
            ) by {
                assert(i == 0);
            }
            lemma_object(list, text);
            assert(pairs(list) =~= seq![("ok"@, Json::Flag(true))]);
            assert(json_value(text + none) is Some);
            assert(text + none =~= text);
        },
        Err(message) => {
            let label = "{\"ok\":false,\"error\":"@;
            let text = label + quoted(message) + "}"@;
            assert(label =~= seq!['{'] + quoted("ok"@) + seq![':'] + "false"@ + seq![','] + quoted(
                "error"@,
            ) + seq![':']);
            assert("}"@ =~= seq!['}']);
            lemma_failure_text("ok"@, label, text, message);
            assert(json_value(text + none) is Some);
            assert(text + none =~= text);
        },
    }
}

} // verus!
