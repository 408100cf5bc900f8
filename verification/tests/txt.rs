use dns::record::txt::TXT;
use dns::wire::{Cursor, Wire, WireError};

#[test]
fn parses_one_iteration() {
    let buf = &[
        0x06, // message chunk length
        0x74, 0x78, 0x74, 0x20, 0x6d, 0x65, // message chunk
    ];

    assert_eq!(
        TXT::read(buf.len() as _, &mut Cursor::new(buf)).unwrap(),
        TXT { message: String::from("txt me") }
    );
}

#[test]
fn parses_two_iterations() {
    // one segment of exactly 255 'A's, then a final segment of four more
    let mut buf: Vec<u8> = vec![0xFF];
    for _ in 0..255 {
        buf.push(0x41);
    }
    buf.push(0x04);
    for _ in 0..4 {
        buf.push(0x41);
    }

    assert_eq!(
        TXT::read(buf.len() as _, &mut Cursor::new(&buf)).unwrap(),
        TXT { message: "A".repeat(259) }
    );
}

#[test]
fn record_empty() {
    assert_eq!(TXT::read(0, &mut Cursor::new(&[])), Err(WireError::IO));
}

#[test]
fn buffer_ends_abruptly() {
    let buf = &[
        0x06, 0x74, // the start of a message
    ];

    assert_eq!(TXT::read(23, &mut Cursor::new(buf)), Err(WireError::IO));
}

#[test]
fn empty_message_needs_one_zero_segment() {
    // an empty text value is one explicit zero-length segment
    let buf = &[0x00];

    assert_eq!(
        TXT::read(1, &mut Cursor::new(buf)),
        Ok(TXT { message: String::new() })
    );
}

#[test]
fn declared_length_too_large() {
    let buf = &[0x02, 0x68, 0x69];

    assert_eq!(
        TXT::read(5, &mut Cursor::new(buf)),
        Err(WireError::WrongLabelLength { expected: 5, got: 3 })
    );
}

#[test]
fn declared_length_too_small() {
    let buf = &[0x02, 0x68, 0x69];

    assert_eq!(
        TXT::read(1, &mut Cursor::new(buf)),
        Err(WireError::WrongLabelLength { expected: 1, got: 3 })
    );
}

#[test]
fn full_segment_ends_with_zero_terminator() {
    // a message of exactly 255 bytes needs a trailing zero-length segment
    let mut buf: Vec<u8> = vec![0xFF];
    for _ in 0..255 {
        buf.push(0x42);
    }
    buf.push(0x00);

    assert_eq!(
        TXT::read(257, &mut Cursor::new(&buf)),
        Ok(TXT { message: "B".repeat(255) })
    );
}

#[test]
fn full_segment_without_terminator_runs_out() {
    // the buffer ends right after a 255-byte segment: continuation is still
    // demanded, so the decode fails rather than succeeding truncated
    let mut buf: Vec<u8> = vec![0xFF];
    for _ in 0..255 {
        buf.push(0x42);
    }

    assert_eq!(TXT::read(256, &mut Cursor::new(&buf)), Err(WireError::IO));
}

#[test]
fn mismatch_after_continuation() {
    let mut buf: Vec<u8> = vec![0xFF];
    for _ in 0..255 {
        buf.push(0x43);
    }
    buf.push(0x01);
    buf.push(0x43);

    assert_eq!(
        TXT::read(100, &mut Cursor::new(&buf)),
        Err(WireError::WrongLabelLength { expected: 100, got: 258 })
    );
}

#[test]
fn invalid_utf8_becomes_replacement_character() {
    // 0xC3 starts a two-byte sequence but 0x28 cannot continue it
    let buf = &[0x03, 0xC3, 0x28, 0x61];

    assert_eq!(
        TXT::read(4, &mut Cursor::new(buf)),
        Ok(TXT { message: String::from("\u{FFFD}(a") })
    );
}

#[test]
fn trailing_bytes_are_left_unread() {
    // the cursor may cover more than this record; the decoder stops at the
    // end of the final segment and validates only what it consumed
    let buf = &[0x01, 0x78, 0xAB, 0xCD];

    assert_eq!(
        TXT::read(2, &mut Cursor::new(buf)),
        Ok(TXT { message: String::from("x") })
    );
}

#[test]
fn decoding_twice_gives_identical_results() {
    let buf = &[0x02, 0xFF, 0xFE];

    let first = TXT::read(3, &mut Cursor::new(buf));
    let second = TXT::read(3, &mut Cursor::new(buf));
    assert_eq!(first, second);
}

#[test]
fn txt_name_and_type_code() {
    assert_eq!(TXT::NAME, "TXT");
    assert_eq!(TXT::RR_TYPE, 16);
}
