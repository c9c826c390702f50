use fiter::Error;
use fiter::Fiter;
use fiter::StaticBytes;

fn fiter_of(bytes: &[u8]) -> Fiter<StaticBytes> {
    Fiter::new(StaticBytes::new(bytes.to_vec()))
}

fn fiter_of_chars(chars: &[char]) -> Fiter<StaticBytes> {
    let mut bytes: Vec<u8> = Vec::new();
    for ch in chars {
        let mut buf = vec![0u8; ch.len_utf8()];
        ch.encode_utf8(&mut buf);
        bytes.extend_from_slice(&buf);
    }
    Fiter::new(StaticBytes::new(bytes))
}

#[test]
fn single_byte() {
    let mut fiter = fiter_of_chars(&['a', 'A', '0', '\0']);

    assert_eq!(fiter.next().unwrap().unwrap(), 'a');
    assert_eq!(fiter.next().unwrap().unwrap(), 'A');
    assert_eq!(fiter.next().unwrap().unwrap(), '0');
    assert_eq!(fiter.next().unwrap().unwrap(), '\0');
    assert!(fiter.next().is_none());
}

#[test]
fn multi_byte() {
    let mut fiter = fiter_of_chars(&['\u{e4}', '\u{d9}', '\u{1f49a}', '\u{1f604}']);

    assert_eq!(fiter.next().unwrap().unwrap(), '\u{e4}');
    assert_eq!(fiter.next().unwrap().unwrap(), '\u{d9}');
    assert_eq!(fiter.next().unwrap().unwrap(), '\u{1f49a}');
    assert_eq!(fiter.next().unwrap().unwrap(), '\u{1f604}');
    assert!(fiter.next().is_none());
}

#[test]
fn empty_stream_ends_at_once() {
    let mut fiter = fiter_of(&[]);
    assert!(fiter.next().is_none());
    assert!(fiter.next().is_none());
}

#[test]
fn ascii_scenario() {
    let mut fiter = fiter_of(&[0x61]);
    assert_eq!(fiter.next().unwrap().unwrap(), 'a');
    assert!(fiter.next().is_none());
}

#[test]
fn two_byte_scenario() {
    let mut fiter = fiter_of(&[0xc3, 0xa4]);
    assert_eq!(fiter.next().unwrap().unwrap(), '\u{e4}');
    assert!(fiter.next().is_none());
}

#[test]
fn four_byte_scenario() {
    let mut fiter = fiter_of(&[0xf0, 0x9f, 0x92, 0x9a]);
    assert_eq!(fiter.next().unwrap().unwrap(), '\u{1f49a}');
    assert!(fiter.next().is_none());
}

#[test]
fn invalid_start_byte_scenario() {
    let mut fiter = fiter_of(&[0xff]);
    match fiter.next().unwrap().unwrap_err() {
        Error::InvalidStartByte { offset, byte } => {
            assert_eq!(offset, 0);
            assert_eq!(byte, 0xff);
        }
        other => panic!("unexpected error: {:?}", other),
    }
}

#[test]
fn stray_continuation_byte_is_invalid_start() {
    let mut fiter = fiter_of(&[0x80]);
    match fiter.next().unwrap().unwrap_err() {
        Error::InvalidStartByte { offset, byte } => {
            assert_eq!(offset, 0);
            assert_eq!(byte, 0x80);
        }
        other => panic!("unexpected error: {:?}", other),
    }
}

#[test]
fn invalid_follow_byte_scenario() {
    let mut fiter = fiter_of(&[0xc3, 0x28]);
    match fiter.next().unwrap().unwrap_err() {
        Error::InvalidFollowByte { offset, byte } => {
            assert_eq!(offset, 1);
            assert_eq!(byte, 0x28);
        }
        other => panic!("unexpected error: {:?}", other),
    }
}

#[test]
fn truncated_four_byte_sequences() {
    for bytes in [
        vec![0xf0u8],
        vec![0xf0u8, 0x9f],
        vec![0xf0u8, 0x9f, 0x92],
    ] {
        let mut fiter = fiter_of(&bytes);
        match fiter.next().unwrap().unwrap_err() {
            Error::TruncatedSequence { offset } => assert_eq!(offset, 0),
            other => panic!("unexpected error: {:?}", other),
        }
    }
}

#[test]
fn truncated_two_and_three_byte_sequences() {
    let mut fiter = fiter_of(&[0xc3]);
    assert!(matches!(
        fiter.next().unwrap().unwrap_err(),
        Error::TruncatedSequence { offset: 0 }
    ));

    let mut fiter = fiter_of(&[0xe2, 0x82]);
    assert!(matches!(
        fiter.next().unwrap().unwrap_err(),
        Error::TruncatedSequence { offset: 0 }
    ));
}

#[test]
fn surrogate_code_point_is_rejected() {
    let mut fiter = fiter_of(&[0xed, 0xa0, 0x80]);
    match fiter.next().unwrap().unwrap_err() {
        Error::InvalidCodePoint { offset, cp } => {
            assert_eq!(offset, 0);
            assert_eq!(cp, 0xd800);
        }
        other => panic!("unexpected error: {:?}", other),
    }
}

#[test]
fn code_point_above_maximum_is_rejected() {
    let mut fiter = fiter_of(&[0xf7, 0xbf, 0xbf, 0xbf]);
    match fiter.next().unwrap().unwrap_err() {
        Error::InvalidCodePoint { offset, cp } => {
            assert_eq!(offset, 0);
            assert_eq!(cp, 0x1fffff);
        }
        other => panic!("unexpected error: {:?}", other),
    }
}

#[test]
fn overlong_encoding_is_accepted_as_its_code_point() {
    let mut fiter = fiter_of(&[0xc0, 0x80]);
    assert_eq!(fiter.next().unwrap().unwrap(), '\0');
    assert!(fiter.next().is_none());
}

#[test]
fn ascii_identity_for_every_byte_below_0x80() {
    for b in 0u8..0x80 {
        let mut fiter = fiter_of(&[b]);
        assert_eq!(fiter.next().unwrap().unwrap(), b as char);
        assert!(fiter.next().is_none());
    }
}

#[test]
fn round_trip_of_sample_characters() {
    let sample = [
        '\0', 'a', '~', '\u{7f}', '\u{80}', '\u{e4}', '\u{7ff}', '\u{800}', '\u{d7ff}',
        '\u{e000}', '\u{ffff}', '\u{10000}', '\u{1f49a}', '\u{10ffff}',
    ];
    for c in sample {
        let mut buf = vec![0u8; c.len_utf8()];
        c.encode_utf8(&mut buf);
        let mut fiter = fiter_of(&buf);
        assert_eq!(fiter.next().unwrap().unwrap(), c);
        assert!(fiter.next().is_none());
    }
}

#[test]
fn offset_counts_consumed_bytes() {
    let mut fiter = fiter_of(&[0x61, 0xc3, 0xa4, 0xf0, 0x9f, 0x92, 0x9a]);
    assert_eq!(fiter.next().unwrap().unwrap(), 'a');
    assert_eq!(fiter.offset, 1);
    assert_eq!(fiter.next().unwrap().unwrap(), '\u{e4}');
    assert_eq!(fiter.offset, 3);
    assert_eq!(fiter.next().unwrap().unwrap(), '\u{1f49a}');
    assert_eq!(fiter.offset, 7);
    assert!(fiter.next().is_none());
    assert_eq!(fiter.offset, 7);
}

#[test]
fn error_offsets_point_into_the_stream() {
    let mut fiter = fiter_of(&[0x61, 0xff]);
    assert_eq!(fiter.next().unwrap().unwrap(), 'a');
    assert!(matches!(
        fiter.next().unwrap().unwrap_err(),
        Error::InvalidStartByte { offset: 1, byte: 0xff }
    ));

    let mut fiter = fiter_of(&[0x61, 0x62, 0xe2, 0x82, 0x28]);
    assert_eq!(fiter.next().unwrap().unwrap(), 'a');
    assert_eq!(fiter.next().unwrap().unwrap(), 'b');
    assert!(matches!(
        fiter.next().unwrap().unwrap_err(),
        Error::InvalidFollowByte { offset: 4, byte: 0x28 }
    ));
}

#[test]
fn io_errors_convert_into_the_io_variant() {
    let io = std::io::Error::new(std::io::ErrorKind::Other, "read failed");
    let err = Error::from(io);
    assert!(matches!(err, Error::Io(_)));
}
