use j2me_kit::codec::{DecodeError, Reader};

#[test]
fn reads_big_endian_values_and_rejects_truncation() {
    let mut reader = Reader::new(&[0x7f, 0x80, 0x12, 0x34, 0xaa]);
    assert_eq!(reader.read_i8(), Ok(127));
    assert_eq!(reader.read_i8(), Ok(-128));
    assert_eq!(reader.read_u16_be(), Ok(0x1234));
    assert_eq!(
        reader.finish(),
        Err(DecodeError::TrailingData {
            offset: 4,
            remaining: 1
        })
    );

    let mut short = Reader::new(&[1]);
    assert_eq!(
        short.read_u16_be(),
        Err(DecodeError::UnexpectedEof {
            offset: 0,
            needed: 2
        })
    );
    assert_eq!(short.position(), 0);
}

#[test]
fn little_endian_reads_and_cursor_navigation() {
    let mut reader = Reader::new(&[0x34, 0x12, 0x78, 0x56, 0x00, 0x00, 0x00, 0x2a]);
    assert_eq!(reader.read_u16_le(), Ok(0x1234));
    assert_eq!(reader.read_i16_le(), Ok(0x5678));
    assert_eq!(reader.read_u32_be(), Ok(0x0000_002a));
    assert_eq!(reader.finish(), Ok(()));

    let mut nav = Reader::new(&[1, 2, 3, 4, 5]);
    assert_eq!(nav.skip(2), Ok(()));
    assert_eq!(nav.position(), 2);
    assert_eq!(nav.read_u8(), Ok(3));
    assert_eq!(nav.seek(1), Ok(()));
    assert_eq!(nav.read_u8(), Ok(2));
    // A seek past the end fails and leaves the cursor unmoved.
    assert_eq!(
        nav.seek(6),
        Err(DecodeError::UnexpectedEof {
            offset: 2,
            needed: 1
        })
    );
    assert_eq!(nav.position(), 2);
}
