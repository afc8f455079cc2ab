use wingsvd::addr::{ipv4_string, ipv6_string};

fn segments(list: [u16; 8]) -> Vec<u8> {
    let mut bytes = Vec::new();
    for segment in list {
        bytes.extend(segment.to_be_bytes());
    }
    bytes
}

#[test]
fn ipv4_addresses() {
    assert_eq!(ipv4_string(&[192, 168, 1, 1]), "192.168.1.1");
    assert_eq!(ipv4_string(&[0, 0, 0, 0]), "0.0.0.0");
    assert_eq!(ipv4_string(&[255, 10, 100, 9]), "255.10.100.9");
}

#[test]
fn ipv6_addresses() {
    let cases = [
        ([0, 0, 0, 0, 0, 0, 0, 0], "::"),
        ([0, 0, 0, 0, 0, 0, 0, 1], "::1"),
        ([0xfe80, 0, 0, 0, 0, 0, 0, 1], "fe80::1"),
        ([0x2001, 0xdb8, 0, 0, 1, 0, 0, 1], "2001:db8::1:0:0:1"),
        ([0x2001, 0xdb8, 0, 1, 0, 0, 0, 1], "2001:db8:0:1::1"),
        ([1, 0, 2, 3, 4, 5, 6, 7], "1:0:2:3:4:5:6:7"),
        ([1, 2, 3, 4, 5, 6, 0, 0], "1:2:3:4:5:6::"),
        ([0, 0, 3, 4, 5, 6, 7, 8], "::3:4:5:6:7:8"),
        ([0xabcd, 0xef, 1, 2, 3, 4, 5, 0xffff], "abcd:ef:1:2:3:4:5:ffff"),
        ([0, 0, 0, 0, 0, 0xffff, 0xc0a8, 0x0101], "::ffff:192.168.1.1"),
        ([0, 0, 0, 0, 0, 0, 0xc0a8, 0x0101], "::c0a8:101"),
    ];
    for (list, text) in cases {
        assert_eq!(ipv6_string(&segments(list)), text);
    }
}
