use dns::wire::{Cursor, WireError};

#[test]
fn read_u8_advances_byte_by_byte() {
    let buf = &[0x01, 0x02];
    let mut c = Cursor::new(buf);

    assert_eq!(c.read_u8(), Ok(0x01));
    assert_eq!(c.read_u8(), Ok(0x02));
    assert_eq!(c.read_u8(), Err(WireError::IO));
}

#[test]
fn read_u16_is_big_endian() {
    let buf = &[0x12, 0x34];
    let mut c = Cursor::new(buf);

    assert_eq!(c.read_u16_be(), Ok(0x1234));
    assert_eq!(c.read_u16_be(), Err(WireError::IO));
}

#[test]
fn read_u32_is_big_endian() {
    let buf = &[0x12, 0x34, 0x56, 0x78, 0x9A];
    let mut c = Cursor::new(buf);

    assert_eq!(c.read_u32_be(), Ok(0x12345678));
    assert_eq!(c.read_u32_be(), Err(WireError::IO));
}

#[test]
fn failed_wide_read_leaves_offset_unchanged() {
    let buf = &[0x7F];
    let mut c = Cursor::new(buf);

    assert_eq!(c.read_u16_be(), Err(WireError::IO));
    assert_eq!(c.read_u8(), Ok(0x7F));
}
