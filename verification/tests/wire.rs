use wingsvd::wire::{read_frame, write_frame, ReadStep, MAX_FRAME_SIZE};

#[test]
fn frame_has_a_big_endian_prefix() {
    assert_eq!(write_frame(&[7, 8, 9]), Ok(vec![0, 0, 0, 3, 7, 8, 9]));
    assert_eq!(write_frame(&[]), Ok(vec![0, 0, 0, 0]));
    let body = vec![1u8; 0x0102];
    assert_eq!(write_frame(&body).unwrap()[..4].to_vec(), vec![0, 0, 1, 2]);
}

#[test]
fn too_large_a_message_is_not_written() {
    let body = vec![0u8; MAX_FRAME_SIZE + 1];
    assert_eq!(write_frame(&body), Err("frame too large".to_string()));
    assert_eq!(write_frame(&body[1..]).unwrap()[..4].to_vec(), vec![0, 0x10, 0, 0]);
}

#[test]
fn frame_is_read_in_steps() {
    let framed = write_frame(&[1, 2, 3]).unwrap();
    assert_eq!(read_frame(&[], false), ReadStep::More(4));
    assert_eq!(read_frame(&framed[..1], false), ReadStep::More(3));
    assert_eq!(read_frame(&framed[..4], false), ReadStep::More(3));
    assert_eq!(read_frame(&framed[..6], false), ReadStep::More(1));
    assert_eq!(read_frame(&framed, false), ReadStep::Frame(vec![1, 2, 3]));
}

#[test]
fn written_frames_read_back() {
    for len in [0usize, 1, 255, 256, 70000] {
        let body: Vec<u8> = (0..len).map(|i| (i % 251) as u8).collect();
        let framed = write_frame(&body).unwrap();
        assert_eq!(read_frame(&framed, true), ReadStep::Frame(body));
    }
}

#[test]
fn stream_that_ends_early() {
    assert_eq!(read_frame(&[], true), ReadStep::Closed);
    assert_eq!(read_frame(&[0], true), ReadStep::Truncated);
    assert_eq!(read_frame(&[0, 0, 0], true), ReadStep::Truncated);
    assert_eq!(read_frame(&[0, 0, 0, 2], true), ReadStep::Truncated);
    assert_eq!(read_frame(&[0, 0, 0, 2, 9], true), ReadStep::Truncated);
    assert_eq!(read_frame(&[0, 0, 0, 0], true), ReadStep::Frame(vec![]));
}

#[test]
fn announced_length_is_limited() {
    assert_eq!(read_frame(&[0, 0x10, 0, 0], false), ReadStep::More(1048576));
    assert_eq!(
        read_frame(&[0, 0x10, 0, 1], false),
        ReadStep::TooLarge("frame of 1048577 bytes".to_string())
    );
    assert_eq!(
        read_frame(&[0xff, 0xff, 0xff, 0xff], true),
        ReadStep::TooLarge("frame of 4294967295 bytes".to_string())
    );
}

#[test]
fn several_frames_of_a_stream_read_back() {
    let bodies = [vec![1u8], vec![], vec![2, 3]];
    let mut stream = Vec::new();
    for body in &bodies {
        stream.extend(write_frame(body).unwrap());
    }
    let mut read = Vec::new();
    let mut rest = stream.as_slice();
    while let ReadStep::Frame(body) = read_frame(rest, true) {
        rest = &rest[4 + body.len()..];
        read.push(body);
    }
    assert_eq!(read, bodies.to_vec());
    assert!(rest.is_empty());
}
