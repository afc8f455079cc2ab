use wingsvd::packages::app_uid;

const DATABASE: &str = "com.other 10001 0 /data/user/0/com.other default:targetSdkVersion=33\nwings.v 10234 0 /data/user/0/wings.v default:targetSdkVersion=34\nwings.v 10999 0 /data/user/0/wings.v default\n";

#[test]
fn first_line_of_the_package_counts() {
    assert_eq!(app_uid("wings.v", DATABASE.as_bytes(), true), Some(10234));
    assert_eq!(app_uid("com.other", DATABASE.as_bytes(), true), Some(10001));
}

#[test]
fn package_has_to_match_whole() {
    assert_eq!(app_uid("wings", DATABASE.as_bytes(), true), None);
    assert_eq!(app_uid("wings.v2", DATABASE.as_bytes(), true), None);
    assert_eq!(app_uid("wings.v", b"", true), None);
}

#[test]
fn malformed_user_number_is_none() {
    assert_eq!(app_uid("wings.v", b"wings.v", true), None);
    assert_eq!(app_uid("wings.v", b"wings.v x 0\nwings.v 7 0\n", true), None);
    assert_eq!(app_uid("wings.v", b"wings.v  7\n", true), None);
    assert_eq!(app_uid("wings.v", b"wings.v 4294967296\n", true), None);
    assert_eq!(app_uid("wings.v", b"wings.v 4294967295\n", true), Some(4294967295));
    assert_eq!(app_uid("wings.v", b"wings.v +7\n", true), Some(7));
    assert_eq!(app_uid("wings.v", b"wings.v -7\n", true), None);
}

#[test]
fn carriage_return_belongs_to_the_newline() {
    assert_eq!(app_uid("wings.v", b"wings.v 7\r\n", true), Some(7));
    assert_eq!(app_uid("wings.v", b"wings.v 7\r", true), None);
}

#[test]
fn unreadable_line_ends_the_search() {
    assert_eq!(app_uid("wings.v", b"\xff 1\nwings.v 7\n", true), None);
    assert_eq!(app_uid("wings.v", b"wings.v 7\n\xff 1\n", true), Some(7));
    assert_eq!(app_uid("\u{e9}", "\u{e9} 7\n".as_bytes(), true), Some(7));
}

#[test]
fn unfinished_line_of_a_broken_reading_is_left_out() {
    assert_eq!(app_uid("wings.v", b"a 1\nwings.v 7", true), Some(7));
    assert_eq!(app_uid("wings.v", b"a 1\nwings.v 7", false), None);
    assert_eq!(app_uid("wings.v", b"wings.v 7\nb", false), Some(7));
}
