use wingsvd::netlink::{
    add_route, any_message_relevant, attributes, default_route_change_is_watched, default_routes,
    dump_default_routes, dump_step, format_addr, index_to_name, monitor_groups,
    parse_default_route, read_u32, route_dump_request, route_family, route_text, wait_for_change,
    DefaultRoute, DumpChunk, DumpStep, Messages, Received, WaitStep,
};

fn message(kind: u16, payload: &[u8]) -> Vec<u8> {
    let mut bytes = Vec::new();
    bytes.extend((16 + payload.len() as u32).to_ne_bytes());
    bytes.extend(kind.to_ne_bytes());
    bytes.extend([0u8; 10]);
    bytes.extend(payload);
    while bytes.len() % 4 != 0 {
        bytes.push(0);
    }
    bytes
}

fn attribute(kind: u16, value: &[u8]) -> Vec<u8> {
    let mut bytes = Vec::new();
    bytes.extend((4 + value.len() as u16).to_ne_bytes());
    bytes.extend(kind.to_ne_bytes());
    bytes.extend(value);
    while bytes.len() % 4 != 0 {
        bytes.push(0);
    }
    bytes
}

fn route(family: u8, dst_len: u8, table: u8, rows: &[Vec<u8>]) -> Vec<u8> {
    let mut bytes = vec![family, dst_len, 0, 0, table, 0, 0, 0, 0, 0, 0, 0];
    for row in rows {
        bytes.extend(row);
    }
    bytes
}

fn wifi_default() -> Vec<u8> {
    route(
        2,
        0,
        254,
        &[
            attribute(5, &[192, 168, 1, 1]),
            attribute(4, &3u32.to_ne_bytes()),
            attribute(6, &600u32.to_ne_bytes()),
        ],
    )
}

#[test]
fn links_and_addresses_are_relevant() {
    for kind in [16u16, 17, 20, 21] {
        assert!(any_message_relevant(&message(kind, &[]), &[]));
    }
    assert!(!any_message_relevant(&message(18, &[]), &[]));
    assert!(!any_message_relevant(&[], &[]));
}

#[test]
fn default_route_changes_are_relevant() {
    for kind in [24u16, 25] {
        assert!(any_message_relevant(&message(kind, &route(2, 0, 254, &[])), &[1500]));
        assert!(!any_message_relevant(&message(kind, &route(2, 24, 254, &[])), &[]));
    }
    assert!(!any_message_relevant(&message(26, &route(2, 0, 254, &[])), &[]));
}

#[test]
fn own_tables_are_ignored() {
    let own = route(2, 0, 252, &[attribute(15, &1500u32.to_ne_bytes())]);
    assert!(!default_route_change_is_watched(&own, &[97, 1500]));
    assert!(default_route_change_is_watched(&own, &[252]));
    assert!(!default_route_change_is_watched(&route(2, 0, 97, &[]), &[97]));
    assert!(!default_route_change_is_watched(&own[..11], &[]));
    let short = route(2, 0, 252, &[attribute(15, &[1, 2])]);
    assert!(!default_route_change_is_watched(&short, &[252]));
}

#[test]
fn later_message_of_a_buffer_counts() {
    let mut buffer = message(24, &route(2, 24, 254, &[]));
    buffer.extend(message(99, &[1, 2, 3]));
    buffer.extend(message(24, &route(2, 0, 254, &[])));
    assert!(any_message_relevant(&buffer, &[]));
    let whole = buffer.len();
    assert!(!any_message_relevant(&buffer[..whole - 1], &[]));
}

#[test]
fn malformed_length_ends_the_buffer() {
    let mut buffer = message(99, &[]);
    buffer[0..4].copy_from_slice(&15u32.to_ne_bytes());
    buffer.extend(message(16, &[]));
    assert!(!any_message_relevant(&buffer, &[]));
}

#[test]
fn waiting_goes_on_until_a_change() {
    let change = Received::Data(message(16, &[]));
    assert_eq!(wait_for_change(&change, &[]), WaitStep::Changed);
    let own = Received::Data(message(24, &route(2, 0, 97, &[])));
    assert_eq!(wait_for_change(&own, &[97]), WaitStep::Again);
    assert_eq!(wait_for_change(&Received::Data(vec![]), &[]), WaitStep::Again);
    assert_eq!(wait_for_change(&Received::Interrupted, &[]), WaitStep::Again);
    assert_eq!(wait_for_change(&Received::Failed, &[]), WaitStep::Failed);
}

#[test]
fn attributes_are_read_in_order() {
    let mut data = attribute(7, &[1]);
    data.extend(attribute(8, &[]));
    data.extend([0xff, 0xff, 0, 0]);
    let mut list = attributes(&data);
    let first = list.next().unwrap();
    assert_eq!((first.kind, first.value), (7, &[1u8][..]));
    let second = list.next().unwrap();
    assert_eq!((second.kind, second.value), (8, &[][..]));
    assert!(list.next().is_none());
}

#[test]
fn last_attribute_may_lack_its_padding() {
    let data = attribute(7, &[1]);
    let mut list = attributes(&data[..5]);
    assert_eq!(list.next().unwrap().value, &[1]);
    assert!(list.data.is_empty());
    assert!(list.next().is_none());
}

#[test]
fn reading_leaves_what_follows() {
    let mut data = attribute(7, &[1]);
    data.extend([9, 9, 9]);
    let mut list = attributes(&data);
    assert!(list.next().is_some());
    assert_eq!(list.data, &[9, 9, 9]);
    assert!(list.next().is_none());
    assert_eq!(list.data, &[9, 9, 9]);

    let mut data = message(99, &[1, 2]);
    data.extend([8, 8]);
    let mut list = Messages { data: &data };
    assert_eq!(list.next().unwrap().payload, &[1, 2]);
    assert_eq!(list.data, &[8, 8]);
    let mut list = Messages { data: &data[..18] };
    assert!(list.next().is_some());
    assert!(list.data.is_empty());
}

#[test]
fn numbers_have_the_byte_order_of_the_machine() {
    assert_eq!(read_u32(&0x0102_0304u32.to_ne_bytes()), Some(0x0102_0304));
    assert_eq!(read_u32(&[1, 2, 3]), None);
    let mut longer = 7u32.to_ne_bytes().to_vec();
    longer.push(9);
    assert_eq!(read_u32(&longer), Some(7));
}

#[test]
fn addresses_depend_on_the_family() {
    assert_eq!(format_addr(2, &[10, 0, 0, 1]), Some("10.0.0.1".to_string()));
    assert_eq!(format_addr(2, &[10, 0, 0]), None);
    assert_eq!(format_addr(2, &[10, 0, 0, 1, 9]), Some("10.0.0.1".to_string()));
    let mut octets = [0u8; 16];
    octets[0] = 0xfe;
    octets[1] = 0x80;
    octets[15] = 1;
    assert_eq!(format_addr(10, &octets), Some("fe80::1".to_string()));
    assert_eq!(format_addr(10, &octets[..15]), None);
    assert_eq!(format_addr(7, &octets), None);
    assert_eq!(route_family(false) as i32, libc::AF_INET);
    assert_eq!(route_family(true) as i32, libc::AF_INET6);
}

#[test]
fn default_route_of_the_main_table() {
    assert_eq!(
        parse_default_route(&wifi_default()),
        Some(DefaultRoute {
            gateway: Some("192.168.1.1".to_string()),
            oif: Some(3),
            metric: Some(600),
        })
    );
    assert_eq!(parse_default_route(&route(2, 0, 97, &[])), None);
    assert_eq!(parse_default_route(&route(2, 24, 254, &[])), None);
    assert_eq!(parse_default_route(&wifi_default()[..11]), None);
    let by_attribute = route(2, 0, 0, &[attribute(15, &254u32.to_ne_bytes())]);
    assert!(parse_default_route(&by_attribute).is_some());
}

#[test]
fn last_attribute_of_a_kind_counts() {
    let payload = route(
        2,
        0,
        254,
        &[attribute(5, &[1, 1, 1, 1]), attribute(5, &[2, 2]), attribute(4, &9u32.to_ne_bytes())],
    );
    assert_eq!(
        parse_default_route(&payload),
        Some(DefaultRoute { gateway: None, oif: Some(9), metric: None })
    );
}

#[test]
fn route_lines() {
    let gateway = Some("192.168.1.1".to_string());
    let dev = Some("wlan0".to_string());
    let found = DefaultRoute { gateway, oif: Some(3), metric: Some(600) };
    assert_eq!(
        route_text(&found, &dev),
        Some("default via 192.168.1.1 dev wlan0 metric 600".to_string())
    );
    assert_eq!(
        route_text(&found, &None),
        Some("default via 192.168.1.1 metric 600".to_string())
    );
    let bare = DefaultRoute { gateway: None, oif: Some(3), metric: Some(0) };
    assert_eq!(route_text(&bare, &dev), Some("default dev wlan0".to_string()));
    assert_eq!(route_text(&bare, &None), None);
    let unnumbered = DefaultRoute { gateway: None, oif: None, metric: None };
    assert_eq!(route_text(&unnumbered, &dev), None);
}

#[test]
fn interface_names_end_at_a_zero() {
    assert_eq!(index_to_name(Some(b"wlan0\0\0\0")), Some("wlan0".to_string()));
    assert_eq!(index_to_name(Some(b"\xff\0")), None);
    assert_eq!(index_to_name(None), None);
}

#[test]
fn dump_lists_default_routes() {
    let mut buffer = message(24, &wifi_default());
    buffer.extend(message(24, &route(2, 24, 254, &[])));
    match dump_default_routes(&buffer) {
        DumpChunk::More(routes) => {
            assert_eq!(routes.len(), 1);
            assert_eq!(routes[0].oif, Some(3));
        }
        _ => panic!("the dump goes on"),
    }
}

#[test]
fn dump_ends_at_the_first_message_that_says_so() {
    let mut done = message(3, &[0, 0, 0, 0]);
    done.extend(message(24, &wifi_default()));
    assert_eq!(dump_default_routes(&done), DumpChunk::Done(vec![]));
    let mut failed = message(24, &wifi_default());
    failed.extend(message(2, &[0, 0, 0, 0]));
    failed.extend(message(3, &[]));
    assert_eq!(dump_default_routes(&failed), DumpChunk::Failed);
    assert_eq!(dump_default_routes(&[]), DumpChunk::Done(vec![]));
}

#[test]
fn dump_goes_on_until_its_end() {
    let devs = vec![Some("wlan0".to_string())];
    let line = || "default via 192.168.1.1 dev wlan0 metric 600".to_string();
    let buffer = Received::Data(message(24, &wifi_default()));
    let step = dump_step(vec![], &buffer, &devs);
    assert_eq!(step, DumpStep::Again(vec![line()]));
    let step = dump_step(vec![line()], &Received::Interrupted, &vec![]);
    assert_eq!(step, DumpStep::Again(vec![line()]));
    let step = dump_step(vec![line()], &buffer, &devs);
    assert_eq!(step, DumpStep::Again(vec![line()]));
    let done = Received::Data(message(3, &[]));
    assert_eq!(dump_step(vec![line()], &done, &vec![]), DumpStep::Finished(vec![line()]));
    let empty = Received::Data(vec![]);
    assert_eq!(dump_step(vec![line()], &empty, &vec![]), DumpStep::Finished(vec![line()]));
}

#[test]
fn failed_dump_lists_nothing() {
    let found = || vec!["default dev wlan0".to_string()];
    assert_eq!(dump_step(found(), &Received::Failed, &vec![]), DumpStep::Finished(vec![]));
    let mut buffer = message(24, &wifi_default());
    buffer.extend(message(2, &[0, 0, 0, 0]));
    let failed = Received::Data(buffer);
    assert_eq!(dump_step(found(), &failed, &vec![]), DumpStep::Finished(vec![]));
}

#[test]
fn routes_are_listed_once() {
    let mut routes = Vec::new();
    add_route(&mut routes, Some("default dev a".to_string()));
    add_route(&mut routes, None);
    add_route(&mut routes, Some("default dev b".to_string()));
    add_route(&mut routes, Some("default dev a".to_string()));
    assert_eq!(routes, vec!["default dev a", "default dev b"]);
}

#[test]
fn routes_of_several_buffers_are_collected() {
    let buffer = message(24, &wifi_default());
    let found = match dump_default_routes(&buffer) {
        DumpChunk::More(found) => found,
        _ => panic!("the dump goes on"),
    };
    let devs = vec![Some("wlan0".to_string())];
    let mut routes = Vec::new();
    default_routes(&mut routes, &found, &devs);
    default_routes(&mut routes, &found, &devs);
    default_routes(&mut routes, &found, &vec![]);
    assert_eq!(
        routes,
        vec![
            "default via 192.168.1.1 dev wlan0 metric 600",
            "default via 192.168.1.1 metric 600",
        ]
    );
}

#[test]
fn dump_request_is_one_message() {
    let request = route_dump_request(10);
    assert_eq!(request.len(), 28);
    assert_eq!(request[0..4].to_vec(), 28u32.to_ne_bytes().to_vec());
    assert_eq!(request[4..6].to_vec(), 26u16.to_ne_bytes().to_vec());
    assert_eq!(request[6..8].to_vec(), 0x301u16.to_ne_bytes().to_vec());
    assert_eq!(request[8..12].to_vec(), 1u32.to_ne_bytes().to_vec());
    assert_eq!(request[12..16].to_vec(), vec![0; 4]);
    assert_eq!(request[16], 10);
    assert_eq!(request[17..28].to_vec(), vec![0; 11]);
}

#[test]
fn monitor_listens_to_links_addresses_and_routes() {
    assert_eq!(monitor_groups(), 0x551);
}
