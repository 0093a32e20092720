use j2me_kit::jvm::io::{ByteArrayInputStream, DataInputStream, DataOutputStream};
use j2me_kit::jvm::JavaError;

#[test]
fn reads_big_endian_signed_values() {
    let bytes = [0xFF, 0xFF, 0x80, 0x00, 0x00, 0x00, 0x00, 0x01];
    let mut input = DataInputStream::new(&bytes);
    assert_eq!(input.read_short().unwrap(), -1);
    assert_eq!(input.read_short().unwrap(), -32768);
    assert_eq!(input.read_int().unwrap(), 1);
    assert!(input.is_empty());
}

#[test]
fn signed_and_unsigned_byte_reads_differ() {
    let bytes = [0xFF, 0xFF];
    let mut input = DataInputStream::new(&bytes);
    assert_eq!(input.read_byte().unwrap(), -1);
    assert_eq!(input.read_unsigned_byte().unwrap(), 255);
}

#[test]
fn reading_past_the_end_is_an_eof_not_a_panic() {
    let bytes = [0x01];
    let mut input = DataInputStream::new(&bytes);
    assert!(input.read_int().is_err());
    // DataInputStream consumes the available prefix before EOFException.
    assert_eq!(input.available(), 0);
}

#[test]
fn read_utf_decodes_modified_utf8_with_multibyte_chars() {
    // length 0x0006, then: 'A', 'ä' (U+00E4 = C3 A4), '€' (U+20AC = E2 82 AC).
    let bytes = [0x00, 0x06, 0x41, 0xC3, 0xA4, 0xE2, 0x82, 0xAC];
    let mut input = DataInputStream::new(&bytes);
    assert_eq!(input.read_utf().unwrap(), vec![0x0041, 0x00E4, 0x20AC]);
    assert!(input.is_empty());
}

#[test]
fn read_utf_accepts_an_embedded_null_both_ways() {
    // The C0 80 two-byte NUL that writeUTF emits: "A\0B", length 4.
    let encoded = [0x00, 0x04, 0x41, 0xC0, 0x80, 0x42];
    let mut input = DataInputStream::new(&encoded);
    assert_eq!(input.read_utf().unwrap(), vec![0x0041, 0x0000, 0x0042]);

    // The raw-0 quirk: readUTF also accepts a literal 0x00 byte, length 3.
    let raw = [0x00, 0x03, 0x41, 0x00, 0x42];
    let mut input = DataInputStream::new(&raw);
    assert_eq!(input.read_utf().unwrap(), vec![0x0041, 0x0000, 0x0042]);
}

#[test]
fn write_utf_then_read_utf_round_trips_including_the_null() {
    let value = [0x0041u16, 0x0000, 0x00E4, 0x20AC, 0x0042];
    let mut output = DataOutputStream::new();
    output.write_utf(&value).unwrap();
    // writeUTF emits the NUL as C0 80, so the byte length is 1+2+2+3+1 = 9.
    assert_eq!(output.as_bytes()[..2], [0x00, 0x09]);

    let bytes = output.into_bytes();
    let mut input = DataInputStream::new(&bytes);
    assert_eq!(input.read_utf().unwrap(), value.to_vec());
    assert!(input.is_empty());
}

#[test]
fn closing_byte_array_output_preserves_buffer_copy_and_writability() {
    let mut output = DataOutputStream::new();
    output.write_int(0x1234_5678);

    // ByteArrayOutputStream.toByteArray() returns an independent snapshot.
    let snapshot = output.as_bytes().to_vec();
    output.close();
    assert_eq!(output.as_bytes(), snapshot);

    // Closing ByteArrayOutputStream has no effect; writes may continue, and
    // the earlier toByteArray snapshot cannot change with the backing sink.
    output.write_byte(0x9a);
    assert_eq!(snapshot, [0x12, 0x34, 0x56, 0x78]);
    assert_eq!(output.as_bytes(), [0x12, 0x34, 0x56, 0x78, 0x9a]);
}

#[test]
fn read_utf_rejects_a_truncated_sequence() {
    // Claims length 2 but the two-byte lead 0xC3 has no continuation byte.
    let bytes = [0x00, 0x02, 0xC3, 0x41];
    let mut input = DataInputStream::new(&bytes);
    assert!(input.read_utf().is_err());
}

#[test]
fn short_read_is_allowed_but_read_fully_is_not() {
    let bytes = [1u8, 2];
    let mut input = DataInputStream::new(&bytes);
    let mut buffer = [0i8; 4];
    assert_eq!(input.read(&mut buffer).unwrap(), 2);

    let mut input = DataInputStream::new(&bytes);
    let mut buffer = [-1i8; 4];
    assert!(input.read_fully(&mut buffer).is_err());
    assert_eq!(buffer, [1, 2, -1, -1]);
    assert_eq!(input.position(), 2);
}

#[test]
fn byte_array_input_stream_retains_exact_full_and_ranged_state() {
    let bytes = vec![0, 1, 2, 3, 4];
    let pointer = bytes.as_ptr();
    let full = ByteArrayInputStream::new(bytes);
    assert_eq!(full.buffer().as_ptr(), pointer);
    assert_eq!(full.position(), 0);
    assert_eq!(full.mark_position(), 0);
    assert_eq!(full.count(), 5);
    assert_eq!(full.available(), 5);

    let mut ranged = ByteArrayInputStream::new_range(vec![0, 1, 2, 3, 4], 2, 2);
    assert_eq!(ranged.position(), 2);
    assert_eq!(ranged.mark_position(), 2);
    assert_eq!(ranged.count(), 4);
    assert_eq!(ranged.available(), 2);
    assert_eq!(ranged.read().unwrap(), 2);
    ranged.mark(123);
    assert_eq!(ranged.read().unwrap(), 3);
    assert_eq!(ranged.read().unwrap(), -1);
    ranged.close();
    ranged.reset();
    assert_eq!(ranged.position(), 3);
    assert_eq!(ranged.read().unwrap(), 3);
}

#[test]
fn byte_array_input_stream_bulk_read_preserves_java_eof_and_bounds_order() {
    let mut before_eof = ByteArrayInputStream::new(vec![7]);
    let mut empty = [];
    assert_eq!(before_eof.read_range(&mut empty, 0, 0), Ok(0));

    let mut at_eof = ByteArrayInputStream::new(vec![]);
    assert_eq!(at_eof.read_range(&mut empty, 0, 0), Ok(-1));
    assert_eq!(
        at_eof.read_range(&mut empty, 1, 0),
        Err(JavaError::IndexOutOfBounds)
    );

    let mut stream = ByteArrayInputStream::new_range(vec![0, 0x80, 0xff, 4], 1, 2);
    let mut destination = [-7_i8; 5];
    assert_eq!(stream.read_range(&mut destination, 2, 3), Ok(2));
    assert_eq!(destination, [-7, -7, -128, -1, -7]);
    assert_eq!(stream.position(), 3);
    assert_eq!(stream.read_range(&mut destination, 0, 1), Ok(-1));
}

#[test]
fn byte_array_input_stream_preserves_hostile_constructor_arithmetic() {
    let mut negative = ByteArrayInputStream::new_range(vec![10, 11, 12], -1, 2);
    assert_eq!(negative.position(), -1);
    assert_eq!(negative.mark_position(), -1);
    assert_eq!(negative.count(), 1);
    assert_eq!(negative.available(), 2);
    assert_eq!(
        negative.read(),
        Err(JavaError::ArrayIndexOutOfBounds {
            index: -1,
            length: 3,
        })
    );
    // `buf[pos++]` advances before the failing JVM bounds check.
    assert_eq!(negative.position(), 0);

    let mut past_end = ByteArrayInputStream::new_range(vec![1, 2, 3], 5, 0);
    assert_eq!(past_end.available(), -2);
    assert_eq!(past_end.read(), Ok(-1));
    assert_eq!(past_end.skip(1), -2);
    assert_eq!(past_end.position(), 3);
}

#[test]
fn data_input_stream_owns_and_returns_the_same_cursor() {
    let bytes = vec![0x12, 0x34, 0x56];
    let pointer = bytes.as_ptr();
    let stream = ByteArrayInputStream::new(bytes);
    let mut input = DataInputStream::from_stream(stream);
    assert_eq!(input.inner().buffer().as_ptr(), pointer);
    assert_eq!(input.read_unsigned_short(), Ok(0x1234));
    let stream = input.into_inner();
    assert_eq!(stream.buffer().as_ptr(), pointer);
    assert_eq!(stream.position(), 2);
    assert_eq!(stream.available(), 1);
}

#[test]
fn write_short_truncates_like_java() {
    let mut output = DataOutputStream::new();
    output.write_short(0x1_2345);
    assert_eq!(output.as_bytes(), &[0x23, 0x45]);
}

#[test]
fn written_modified_utf8_has_no_zero_byte_and_summed_width() {
    let value = [0x0041u16, 0x0000, 0x00E4, 0x20AC, 0x0042, 0x07FF, 0x0800];
    let mut output = DataOutputStream::new();
    output.write_utf(&value).unwrap();
    let bytes = output.into_bytes();
    assert_eq!(bytes.len(), 2 + 1 + 2 + 2 + 3 + 1 + 2 + 3);
    assert!(bytes[2..].iter().all(|b| *b != 0));
}
