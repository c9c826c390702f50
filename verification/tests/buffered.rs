use fiter::ByteSource;
use fiter::Error;
use fiter::Fiter;
use fiter::StaticBytes;

fn decode_to_end<T: ByteSource>(fiter: &mut Fiter<T>) -> Vec<Result<char, Error>> {
    let mut out = Vec::new();
    loop {
        match fiter.next() {
            None => return out,
            Some(item) => {
                let stop = item.is_err();
                out.push(item);
                if stop {
                    return out;
                }
            }
        }
    }
}

fn same_outcome(a: &Result<char, Error>, b: &Result<char, Error>) -> bool {
    match (a, b) {
        (Ok(x), Ok(y)) => x == y,
        (
            Err(Error::InvalidStartByte { offset: o1, byte: b1 }),
            Err(Error::InvalidStartByte { offset: o2, byte: b2 }),
        ) => o1 == o2 && b1 == b2,
        (
            Err(Error::InvalidFollowByte { offset: o1, byte: b1 }),
            Err(Error::InvalidFollowByte { offset: o2, byte: b2 }),
        ) => o1 == o2 && b1 == b2,
        (
            Err(Error::InvalidCodePoint { offset: o1, cp: c1 }),
            Err(Error::InvalidCodePoint { offset: o2, cp: c2 }),
        ) => o1 == o2 && c1 == c2,
        (
            Err(Error::TruncatedSequence { offset: o1 }),
            Err(Error::TruncatedSequence { offset: o2 }),
        ) => o1 == o2,
        (Err(Error::Io(_)), Err(Error::Io(_))) => true,
        _ => false,
    }
}

fn assert_variants_agree(bytes: &[u8], capacity: usize) {
    let mut plain = Fiter::new(StaticBytes::new(bytes.to_vec()));
    let mut chunked = Fiter::new_buffered(bytes.to_vec(), capacity);
    let a = decode_to_end(&mut plain);
    let b = decode_to_end(&mut chunked);
    assert_eq!(a.len(), b.len());
    for (x, y) in a.iter().zip(b.iter()) {
        assert!(same_outcome(x, y), "outcomes differ: {:?} vs {:?}", x, y);
    }
}

#[test]
fn buffered_decodes_across_chunk_boundaries() {
    let text = "tag: \u{e4}\u{d9}\u{1f49a}\u{1f604} end";
    let bytes = text.as_bytes();
    for capacity in [1usize, 2, 3, 5, 1000] {
        let mut fiter = Fiter::new_buffered(bytes.to_vec(), capacity);
        for expected in text.chars() {
            assert_eq!(fiter.next().unwrap().unwrap(), expected);
        }
        assert!(fiter.next().is_none());
    }
}

#[test]
fn buffered_and_plain_variants_agree_on_valid_input() {
    let text = "a\u{e4}\u{7ff}\u{800}\u{ffff}\u{10000}\u{1f49a}z";
    for capacity in [1usize, 2, 4, 7, 100] {
        assert_variants_agree(text.as_bytes(), capacity);
    }
}

#[test]
fn buffered_and_plain_variants_agree_on_malformed_input() {
    let streams: [&[u8]; 5] = [
        &[],
        &[0x61, 0xff],
        &[0xc3, 0x28],
        &[0xf0, 0x9f],
        &[0x61, 0xed, 0xa0, 0x80],
    ];
    for bytes in streams {
        for capacity in [1usize, 2, 3, 1000] {
            assert_variants_agree(bytes, capacity);
        }
    }
}

#[test]
fn buffered_empty_stream_ends_at_once() {
    let mut fiter = Fiter::new_buffered(Vec::new(), 1000);
    assert!(fiter.next().is_none());
    assert!(fiter.next().is_none());
}
