use broker_protocol::codec::{
    read_compact_array_len, read_compact_string, read_i16, read_i32, read_tag_buffer, read_u8,
    read_uvarint, uvarint_size, write_compact_array_len, write_compact_string, write_tag_buffer,
    write_uvarint,
};
use broker_protocol::errors::{DecodeError, Field};
use broker_protocol::text::read_text;
use bytes::{Bytes, BytesMut};

fn encoded(value: u32) -> Vec<u8> {
    let mut buf = BytesMut::new();
    write_uvarint(&mut buf, value);
    buf.to_vec()
}

#[test]
fn uvarint_exact_encodings() {
    assert_eq!(encoded(0), vec![0x00]);
    assert_eq!(encoded(1), vec![0x01]);
    assert_eq!(encoded(127), vec![0x7F]);
    assert_eq!(encoded(128), vec![0x80, 0x01]);
    assert_eq!(encoded(300), vec![0xAC, 0x02]);
    assert_eq!(encoded(16383), vec![0xFF, 0x7F]);
    assert_eq!(encoded(16384), vec![0x80, 0x80, 0x01]);
    assert_eq!(encoded(0x0FFF_FFFF), vec![0xFF, 0xFF, 0xFF, 0x7F]);
    assert_eq!(encoded(0x1000_0000), vec![0x80, 0x80, 0x80, 0x80, 0x01]);
    assert_eq!(encoded(u32::MAX), vec![0xFF, 0xFF, 0xFF, 0xFF, 0x0F]);
}

#[test]
fn uvarint_appends_to_what_is_written() {
    let mut buf = BytesMut::new();
    write_uvarint(&mut buf, 5);
    write_uvarint(&mut buf, 300);
    assert_eq!(buf.to_vec(), vec![0x05, 0xAC, 0x02]);
}

#[test]
fn uvarint_round_trip_on_chosen_values() {
    let values = [
        0u32,
        1,
        127,
        128,
        255,
        300,
        16383,
        16384,
        2_097_151,
        2_097_152,
        268_435_455,
        268_435_456,
        0x7FFF_FFFF,
        0x8000_0000,
        u32::MAX - 1,
        u32::MAX,
    ];
    for value in values {
        let mut bytes = encoded(value);
        assert_eq!(bytes.len(), uvarint_size(value));
        bytes.push(0xEE);
        let mut message = Bytes::from(bytes);
        assert_eq!(read_uvarint(&mut message, Field::Topics), Ok(value));
        assert_eq!(&message[..], &[0xEE]);
    }
}

#[test]
fn uvarint_round_trip_on_a_sweep() {
    let mut value: u32 = 0;
    loop {
        let mut message = Bytes::from(encoded(value));
        assert_eq!(read_uvarint(&mut message, Field::Topics), Ok(value));
        assert!(message.is_empty());
        match value.checked_add(65_521) {
            Some(next) => value = next,
            None => break,
        }
    }
}

#[test]
fn uvarint_rejects_wide_fifth_byte() {
    let mut message = Bytes::from(vec![0xFF, 0xFF, 0xFF, 0xFF, 0x1F, 0x00]);
    assert_eq!(
        read_uvarint(&mut message, Field::ClientId),
        Err(DecodeError::MalformedVarint { field: Field::ClientId, byte: 0x1F })
    );
    assert_eq!(&message[..], &[0x00]);

    let mut message = Bytes::from(vec![0x80, 0x80, 0x80, 0x80, 0x10]);
    assert_eq!(
        read_uvarint(&mut message, Field::ClientId),
        Err(DecodeError::MalformedVarint { field: Field::ClientId, byte: 0x10 })
    );
}

#[test]
fn uvarint_accepts_the_widest_fifth_byte() {
    let mut message = Bytes::from(vec![0x80, 0x80, 0x80, 0x80, 0x0F]);
    assert_eq!(read_uvarint(&mut message, Field::ClientId), Ok(0xF000_0000));
}

#[test]
fn uvarint_rejects_more_than_five_bytes() {
    let mut message = Bytes::from(vec![0x80, 0x80, 0x80, 0x80, 0x80, 0x01]);
    assert_eq!(
        read_uvarint(&mut message, Field::TopicName),
        Err(DecodeError::MalformedVarint { field: Field::TopicName, byte: 0x80 })
    );
    assert_eq!(&message[..], &[0x01]);
}

#[test]
fn uvarint_reports_end_of_input() {
    let mut message = Bytes::new();
    assert_eq!(
        read_uvarint(&mut message, Field::Topics),
        Err(DecodeError::UnexpectedEof { field: Field::Topics })
    );
    let mut message = Bytes::from(vec![0x80, 0xFF]);
    assert_eq!(
        read_uvarint(&mut message, Field::Topics),
        Err(DecodeError::UnexpectedEof { field: Field::Topics })
    );
    assert!(message.is_empty());
}

#[test]
fn uvarint_accepts_non_minimal_input() {
    let mut message = Bytes::from(vec![0x80, 0x00]);
    assert_eq!(read_uvarint(&mut message, Field::Topics), Ok(0));
    assert!(message.is_empty());
}

#[test]
fn fixed_width_fields_are_big_endian() {
    let mut message = Bytes::from(vec![0x08, 0x09, 0xFF, 0xFE, 0x08, 0x09, 0xA0, 0xA1, 0x2A]);
    assert_eq!(read_i16(&mut message, Field::ApiKey), Ok(0x0809));
    assert_eq!(read_i16(&mut message, Field::ApiVersion), Ok(-2));
    assert_eq!(read_i32(&mut message, Field::CorrelationId), Ok(0x0809_A0A1));
    assert_eq!(read_u8(&mut message, Field::Cursor), Ok(0x2A));
    assert!(message.is_empty());
}

#[test]
fn fixed_width_fields_read_negative_numbers() {
    let mut message = Bytes::from(vec![0x80, 0x00, 0xFF, 0xFF, 0xFF, 0xFF, 0x80, 0x00, 0x00, 0x00]);
    assert_eq!(read_i16(&mut message, Field::ApiKey), Ok(i16::MIN));
    assert_eq!(read_i32(&mut message, Field::CorrelationId), Ok(-1));
    assert_eq!(read_i32(&mut message, Field::CorrelationId), Ok(i32::MIN));
}

#[test]
fn fixed_width_fields_report_end_of_input() {
    let mut message = Bytes::from(vec![0x01]);
    assert_eq!(
        read_i16(&mut message, Field::ApiKey),
        Err(DecodeError::UnexpectedEof { field: Field::ApiKey })
    );
    assert_eq!(&message[..], &[0x01]);
    let mut message = Bytes::from(vec![0x01, 0x02, 0x03]);
    assert_eq!(
        read_i32(&mut message, Field::CorrelationId),
        Err(DecodeError::UnexpectedEof { field: Field::CorrelationId })
    );
    assert_eq!(message.len(), 3);
    let mut message = Bytes::new();
    assert_eq!(
        read_u8(&mut message, Field::Cursor),
        Err(DecodeError::UnexpectedEof { field: Field::Cursor })
    );
}

#[test]
fn tag_buffer_must_be_zero() {
    let mut message = Bytes::from(vec![0x00, 0x07, 0x09]);
    assert_eq!(read_tag_buffer(&mut message, Field::ApiVersionsTagBuffer), Ok(()));
    assert_eq!(
        read_tag_buffer(&mut message, Field::ApiVersionsTagBuffer),
        Err(DecodeError::UnexpectedTagBuffer { field: Field::ApiVersionsTagBuffer, tag: 0x07 })
    );
    assert_eq!(&message[..], &[0x09]);
    let mut message = Bytes::new();
    assert_eq!(
        read_tag_buffer(&mut message, Field::TopicTagBuffer),
        Err(DecodeError::UnexpectedEof { field: Field::TopicTagBuffer })
    );
}

#[test]
fn tag_buffer_is_written_as_one_zero_byte() {
    let mut buf = BytesMut::new();
    write_tag_buffer(&mut buf);
    assert_eq!(buf.to_vec(), vec![0x00]);
}

#[test]
fn compact_string_exact_encoding() {
    let mut buf = BytesMut::new();
    write_compact_string(&mut buf, "foo");
    assert_eq!(buf.to_vec(), vec![0x04, b'f', b'o', b'o']);
    let mut buf = BytesMut::new();
    write_compact_string(&mut buf, "");
    assert_eq!(buf.to_vec(), vec![0x01]);
}

#[test]
fn compact_string_round_trip() {
    let long = "x".repeat(200);
    let texts = ["", "a", "foo", "héllo wörld", "日本語のトピック", "🦀🦀", long.as_str()];
    for text in texts {
        let mut buf = BytesMut::new();
        write_compact_string(&mut buf, text);
        buf.extend_from_slice(&[0xAB, 0xCD]);
        let mut message = buf.freeze();
        let declared = message[0];
        if text.len() < 127 {
            assert_eq!(declared as usize, text.len() + 1);
        }
        assert_eq!(
            read_compact_string(&mut message, Field::TopicName),
            Ok(Some(text.to_string()))
        );
        assert_eq!(&message[..], &[0xAB, 0xCD]);
    }
}

#[test]
fn compact_string_length_prefix_takes_two_bytes_from_127() {
    let text = "y".repeat(127);
    let mut buf = BytesMut::new();
    write_compact_string(&mut buf, &text);
    assert_eq!(&buf[..2], &[0x80, 0x01]);
    assert_eq!(buf.len(), 129);
}

#[test]
fn compact_string_null_and_empty() {
    let mut message = Bytes::from(vec![0x00, 0x01, 0x55]);
    assert_eq!(read_compact_string(&mut message, Field::ClientId), Ok(None));
    assert_eq!(
        read_compact_string(&mut message, Field::ClientId),
        Ok(Some(String::new()))
    );
    assert_eq!(&message[..], &[0x55]);
}

#[test]
fn compact_string_replaces_invalid_utf8() {
    let mut message = Bytes::from(vec![0x04, 0xFF, b'a', 0xC0]);
    assert_eq!(
        read_compact_string(&mut message, Field::ClientId),
        Ok(Some("\u{FFFD}a\u{FFFD}".to_string()))
    );
    assert!(message.is_empty());
}

#[test]
fn compact_string_reports_missing_bytes() {
    let mut message = Bytes::from(vec![0x05, b'a', b'b']);
    assert_eq!(
        read_compact_string(&mut message, Field::ClientSoftwareVersion),
        Err(DecodeError::UnexpectedEof { field: Field::ClientSoftwareVersion })
    );
    assert_eq!(&message[..], b"ab");
}

#[test]
fn compact_string_passes_on_varint_failures() {
    let mut message = Bytes::from(vec![0xFF, 0xFF, 0xFF, 0xFF, 0x7F]);
    assert_eq!(
        read_compact_string(&mut message, Field::TopicName),
        Err(DecodeError::MalformedVarint { field: Field::TopicName, byte: 0x7F })
    );
    let mut message = Bytes::new();
    assert_eq!(
        read_compact_string(&mut message, Field::TopicName),
        Err(DecodeError::UnexpectedEof { field: Field::TopicName })
    );
}

#[test]
fn compact_array_len_round_trip() {
    let counts = [0u32, 1, 2, 126, 127, 128, 70_000, 0x7FFF_FFFF, u32::MAX - 1];
    for count in counts {
        let mut buf = BytesMut::new();
        write_compact_array_len(&mut buf, count);
        buf.extend_from_slice(&[0x11]);
        let mut message = buf.freeze();
        assert_eq!(read_compact_array_len(&mut message, Field::Topics), Ok(Some(count)));
        assert_eq!(&message[..], &[0x11]);
    }
}

#[test]
fn compact_array_len_null_and_empty() {
    let mut buf = BytesMut::new();
    write_compact_array_len(&mut buf, 0);
    assert_eq!(buf.to_vec(), vec![0x01]);
    let mut message = Bytes::from(vec![0x00, 0x01, 0x03]);
    assert_eq!(read_compact_array_len(&mut message, Field::Topics), Ok(None));
    assert_eq!(read_compact_array_len(&mut message, Field::Topics), Ok(Some(0)));
    assert_eq!(read_compact_array_len(&mut message, Field::Topics), Ok(Some(2)));
}

#[test]
fn text_is_read_permissively() {
    assert_eq!(read_text(b"plain"), "plain");
    assert_eq!(read_text("żółw".as_bytes()), "żółw");
    assert_eq!(read_text(&[b'a', 0x80, b'b']), "a\u{FFFD}b");
    assert_eq!(read_text(&[]), "");
}

#[test]
fn field_names_are_reported() {
    assert_eq!(Field::HeaderTagBuffer.name(), "header.tag_buffer");
    assert_eq!(Field::ApiVersionsTagBuffer.name(), "api_versions.tag_buffer");
    assert_eq!(
        Field::DescribeTopicPartitionsTagBuffer.name(),
        "describe_topic_partitions.tag_buffer"
    );
    assert_eq!(Field::TopicTagBuffer.name(), "topic.tag_buffer");
    assert_eq!(Field::Cursor.name(), "cursor");
    assert_eq!(Field::ApiKey.name(), "api_key");
    let error = DecodeError::UnexpectedTagBuffer { field: Field::TopicTagBuffer, tag: 3 };
    assert_eq!(error.field(), Field::TopicTagBuffer);
    assert_eq!(DecodeError::InvalidCursor { cursor: 1 }.field(), Field::Cursor);
    assert_eq!(DecodeError::UnsupportedApi { api_key: Some(999) }.field(), Field::ApiKey);
    assert_eq!(DecodeError::FrameTooSmall { message_size: 2 }.field(), Field::MessageSize);
    assert_eq!(
        DecodeError::MalformedVarint { field: Field::Topics, byte: 0x80 }.field(),
        Field::Topics
    );
}
