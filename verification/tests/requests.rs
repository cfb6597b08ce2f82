use broker_protocol::api_keys::ApiKey;
use broker_protocol::errors::{DecodeError, Field};
use broker_protocol::requests::{Request, RequestBody, RequestHeader};
use bytes::Bytes;

fn header_bytes(api_key: i16, api_version: i16, correlation_id: i32, client_id: &str) -> Vec<u8> {
    let mut bytes = Vec::new();
    bytes.extend_from_slice(&api_key.to_be_bytes());
    bytes.extend_from_slice(&api_version.to_be_bytes());
    bytes.extend_from_slice(&correlation_id.to_be_bytes());
    bytes.push(client_id.len() as u8 + 1);
    bytes.extend_from_slice(client_id.as_bytes());
    bytes.push(0x00);
    bytes
}

fn framed(message: &[u8]) -> Vec<u8> {
    let mut bytes = (message.len() as i32).to_be_bytes().to_vec();
    bytes.extend_from_slice(message);
    bytes
}

fn api_versions_message(version: i16, correlation_id: i32) -> Vec<u8> {
    let mut message = header_bytes(18, version, correlation_id, "");
    message.extend_from_slice(&[0x01, 0x01, 0x00]);
    message
}

fn describe_message(topics: &[&str], cursor: u8) -> Vec<u8> {
    let mut message = header_bytes(75, 0, 9, "cli");
    message.push(topics.len() as u8 + 1);
    for topic in topics {
        message.push(topic.len() as u8 + 1);
        message.extend_from_slice(topic.as_bytes());
        message.push(0x00);
    }
    message.extend_from_slice(&100i32.to_be_bytes());
    message.push(cursor);
    message.push(0x00);
    message
}

#[test]
fn header_is_decoded_field_by_field() {
    let mut message = Bytes::from(header_bytes(18, 4, 1_870_644_833, "kafka-cli"));
    let header = RequestHeader::parse_request_header(&mut message).unwrap();
    assert_eq!(
        header,
        RequestHeader {
            api_key: ApiKey::ApiVersions,
            api_version: 4,
            correlation_id: 1_870_644_833,
            client_id: "kafka-cli".to_string(),
        }
    );
    assert!(message.is_empty());
}

#[test]
fn header_exact_bytes() {
    let mut message = Bytes::from(vec![
        0x00, 0x4B, 0x00, 0x00, 0x6F, 0x7F, 0xC6, 0x61, 0x03, b'a', b'b', 0x00, 0x99,
    ]);
    let header = RequestHeader::parse_request_header(&mut message).unwrap();
    assert_eq!(header.api_key, ApiKey::DescribeTopicPartitions);
    assert_eq!(header.api_version, 0);
    assert_eq!(header.correlation_id, 0x6F7F_C661);
    assert_eq!(header.client_id, "ab");
    assert_eq!(&message[..], &[0x99]);
}

#[test]
fn header_with_null_client_id_has_empty_text() {
    let mut message = Bytes::from(vec![0x00, 0x12, 0x00, 0x04, 0x00, 0x00, 0x00, 0x07, 0x00, 0x00]);
    let header = RequestHeader::parse_request_header(&mut message).unwrap();
    assert_eq!(header.client_id, "");
    assert_eq!(header.correlation_id, 7);
}

#[test]
fn header_tag_byte_must_be_zero() {
    let mut bytes = header_bytes(18, 4, 7, "c");
    let last = bytes.len() - 1;
    bytes[last] = 0x02;
    bytes.push(0x44);
    let mut message = Bytes::from(bytes);
    let error = RequestHeader::parse_request_header(&mut message).unwrap_err();
    assert_eq!(error, DecodeError::UnexpectedTagBuffer { field: Field::HeaderTagBuffer, tag: 0x02 });
    assert_eq!(error.field().name(), "header.tag_buffer");
    assert_eq!(&message[..], &[0x44]);
}

#[test]
fn header_of_unsupported_api_holds_the_sentinel() {
    for code in [999i16, 0, -1, 17, 19, 74, 76, i16::MAX, i16::MIN] {
        let mut bytes = header_bytes(code, 3, 7, "who");
        bytes.extend_from_slice(&[0x01, 0x01, 0x00]);
        let mut message = Bytes::from(bytes);
        assert_eq!(
            RequestHeader::parse_request_header(&mut message),
            Ok(RequestHeader {
                api_key: ApiKey::Unsupported,
                api_version: 3,
                correlation_id: 7,
                client_id: "who".to_string(),
            })
        );
        assert_eq!(&message[..], &[0x01, 0x01, 0x00]);
    }
}

#[test]
fn header_key_is_the_lookup_of_the_code() {
    for code in i16::MIN..=i16::MAX {
        let mut message = Bytes::from(header_bytes(code, 0, 1, ""));
        let header = RequestHeader::parse_request_header(&mut message).unwrap();
        assert_eq!(header.api_key, ApiKey::from_int(code));
        assert!(message.is_empty());
    }
}

#[test]
fn header_tag_failure_comes_before_unsupported_api() {
    let mut bytes = header_bytes(999, 0, 7, "");
    let last = bytes.len() - 1;
    bytes[last] = 0x01;
    let mut message = Bytes::from(bytes.clone());
    assert_eq!(
        RequestHeader::parse_request_header(&mut message),
        Err(DecodeError::UnexpectedTagBuffer { field: Field::HeaderTagBuffer, tag: 0x01 })
    );
    let mut message = Bytes::from(bytes);
    assert_eq!(
        Request::parse_message(&mut message),
        Err(DecodeError::UnexpectedTagBuffer { field: Field::HeaderTagBuffer, tag: 0x01 })
    );
}

#[test]
fn message_of_unsupported_api_is_rejected_with_the_code_read() {
    for code in [999i16, 0, -1, 17, 76, i16::MIN] {
        let mut bytes = header_bytes(code, 0, 7, "");
        bytes.extend_from_slice(&[0x01, 0x01, 0x00]);
        let mut message = Bytes::from(bytes);
        let error = Request::parse_message(&mut message).unwrap_err();
        assert_eq!(error, DecodeError::UnsupportedApi { api_key: Some(code) });
        assert_eq!(error.field().name(), "api_key");
        assert_eq!(&message[..], &[0x01, 0x01, 0x00]);
    }
}

#[test]
fn truncated_header_of_unsupported_api_names_the_missing_field() {
    let full = header_bytes(999, 0, 7, "");
    let mut message = Bytes::copy_from_slice(&full[..full.len() - 1]);
    assert_eq!(
        Request::parse_message(&mut message),
        Err(DecodeError::UnexpectedEof { field: Field::HeaderTagBuffer })
    );
}

#[test]
fn header_that_ends_early_names_the_field() {
    let full = header_bytes(18, 4, 7, "abc");
    let expected = [
        (0, Field::ApiKey),
        (1, Field::ApiKey),
        (2, Field::ApiVersion),
        (3, Field::ApiVersion),
        (4, Field::CorrelationId),
        (7, Field::CorrelationId),
        (8, Field::HeaderClientId),
        (9, Field::HeaderClientId),
        (11, Field::HeaderClientId),
        (12, Field::HeaderTagBuffer),
    ];
    for (len, field) in expected {
        let mut message = Bytes::copy_from_slice(&full[..len]);
        assert_eq!(
            RequestHeader::parse_request_header(&mut message),
            Err(DecodeError::UnexpectedEof { field })
        );
    }
}

#[test]
fn api_versions_body_is_decoded() {
    let mut message = Bytes::from(vec![
        0x0A, b'k', b'a', b'f', b'k', b'a', b'-', b'c', b'l', b'i', 0x04, b'0', b'.', b'1', 0x00,
    ]);
    assert_eq!(
        RequestBody::parse_api_versions_body(&mut message),
        Ok(RequestBody::ApiVersions {
            client_id: "kafka-cli".to_string(),
            client_software_version: "0.1".to_string(),
        })
    );
    assert!(message.is_empty());
}

#[test]
fn api_versions_body_tag_byte_must_be_zero() {
    let mut message = Bytes::from(vec![0x01, 0x01, 0x09]);
    let error = RequestBody::parse_api_versions_body(&mut message).unwrap_err();
    assert_eq!(
        error,
        DecodeError::UnexpectedTagBuffer { field: Field::ApiVersionsTagBuffer, tag: 0x09 }
    );
    assert_eq!(error.field().name(), "api_versions.tag_buffer");
}

#[test]
fn api_versions_body_failures_name_the_string() {
    let mut message = Bytes::from(vec![0x05, b'a']);
    assert_eq!(
        RequestBody::parse_api_versions_body(&mut message),
        Err(DecodeError::UnexpectedEof { field: Field::ClientId })
    );
    let mut message = Bytes::from(vec![0x02, b'a', 0xFF, 0xFF, 0xFF, 0xFF, 0xFF]);
    assert_eq!(
        RequestBody::parse_api_versions_body(&mut message),
        Err(DecodeError::MalformedVarint { field: Field::ClientSoftwareVersion, byte: 0xFF })
    );
    let mut message = Bytes::from(vec![0x02, b'a', 0x02, b'b']);
    assert_eq!(
        RequestBody::parse_api_versions_body(&mut message),
        Err(DecodeError::UnexpectedEof { field: Field::ApiVersionsTagBuffer })
    );
}

#[test]
fn topic_is_a_compact_string_with_its_own_tag_byte() {
    let mut message = Bytes::from(vec![0x04, b'f', b'o', b'o', 0x00, 0x77]);
    assert_eq!(RequestBody::parse_topic(&mut message), Ok("foo".to_string()));
    assert_eq!(&message[..], &[0x77]);
    let mut message = Bytes::from(vec![0x04, b'f', b'o', b'o', 0x05]);
    let error = RequestBody::parse_topic(&mut message).unwrap_err();
    assert_eq!(error, DecodeError::UnexpectedTagBuffer { field: Field::TopicTagBuffer, tag: 0x05 });
    assert_eq!(error.field().name(), "topic.tag_buffer");
    let mut message = Bytes::from(vec![0x04, b'f']);
    assert_eq!(
        RequestBody::parse_topic(&mut message),
        Err(DecodeError::UnexpectedEof { field: Field::TopicName })
    );
}

#[test]
fn describe_topic_partitions_body_is_decoded() {
    let mut message = Bytes::from(vec![
        0x03, 0x04, b'f', b'o', b'o', 0x00, 0x03, b'a', b'b', 0x00, 0x00, 0x00, 0x00, 0x64, 0xFF,
        0x00,
    ]);
    assert_eq!(
        RequestBody::parse_describe_topic_partitions(&mut message),
        Ok(RequestBody::DescribeTopicPartitions {
            topics: vec!["foo".to_string(), "ab".to_string()],
            response_partition_limit: 100,
            cursor: 0xFF,
        })
    );
    assert!(message.is_empty());
}

#[test]
fn describe_topic_partitions_with_null_or_empty_array_has_no_topics() {
    for head in [0x00u8, 0x01] {
        let mut message = Bytes::from(vec![head, 0x00, 0x00, 0x00, 0x01, 0xFF, 0x00]);
        assert_eq!(
            RequestBody::parse_describe_topic_partitions(&mut message),
            Ok(RequestBody::DescribeTopicPartitions {
                topics: vec![],
                response_partition_limit: 1,
                cursor: 0xFF,
            })
        );
    }
}

#[test]
fn describe_topic_partitions_cursor_must_be_null() {
    let mut message = Bytes::from(vec![0x01, 0x00, 0x00, 0x00, 0x01, 0x00, 0x00]);
    let error = RequestBody::parse_describe_topic_partitions(&mut message).unwrap_err();
    assert_eq!(error, DecodeError::InvalidCursor { cursor: 0x00 });
    assert_eq!(error.field().name(), "cursor");
    assert_eq!(&message[..], &[0x00]);
}

#[test]
fn describe_topic_partitions_tag_byte_must_be_zero() {
    let mut message = Bytes::from(vec![0x01, 0x00, 0x00, 0x00, 0x01, 0xFF, 0x80]);
    assert_eq!(
        RequestBody::parse_describe_topic_partitions(&mut message),
        Err(DecodeError::UnexpectedTagBuffer { field: Field::DescribeTopicPartitionsTagBuffer, tag: 0x80 })
    );
}

#[test]
fn describe_topic_partitions_stops_at_the_first_bad_topic() {
    let mut message = Bytes::from(vec![0x03, 0x02, b'a', 0x00, 0x02, b'b', 0x01, 0xAA]);
    assert_eq!(
        RequestBody::parse_describe_topic_partitions(&mut message),
        Err(DecodeError::UnexpectedTagBuffer { field: Field::TopicTagBuffer, tag: 0x01 })
    );
    assert_eq!(&message[..], &[0xAA]);
}

#[test]
fn describe_topic_partitions_with_more_topics_announced_than_sent() {
    let mut message = Bytes::from(vec![0xFF, 0xFF, 0xFF, 0xFF, 0x0F, 0x02, b'a', 0x00]);
    assert_eq!(
        RequestBody::parse_describe_topic_partitions(&mut message),
        Err(DecodeError::UnexpectedEof { field: Field::TopicName })
    );
}

#[test]
fn describe_topic_partitions_failures_name_the_field() {
    let mut message = Bytes::new();
    assert_eq!(
        RequestBody::parse_describe_topic_partitions(&mut message),
        Err(DecodeError::UnexpectedEof { field: Field::Topics })
    );
    let mut message = Bytes::from(vec![0x01, 0x00, 0x00]);
    assert_eq!(
        RequestBody::parse_describe_topic_partitions(&mut message),
        Err(DecodeError::UnexpectedEof { field: Field::ResponsePartitionLimit })
    );
    let mut message = Bytes::from(vec![0x01, 0x00, 0x00, 0x00, 0x00]);
    assert_eq!(
        RequestBody::parse_describe_topic_partitions(&mut message),
        Err(DecodeError::UnexpectedEof { field: Field::Cursor })
    );
    let mut message = Bytes::from(vec![0x01, 0x00, 0x00, 0x00, 0x00, 0xFF]);
    assert_eq!(
        RequestBody::parse_describe_topic_partitions(&mut message),
        Err(DecodeError::UnexpectedEof { field: Field::DescribeTopicPartitionsTagBuffer })
    );
}

#[test]
fn body_is_chosen_by_the_header() {
    let header = RequestHeader {
        api_key: ApiKey::ApiVersions,
        api_version: 4,
        correlation_id: 1,
        client_id: String::new(),
    };
    let mut message = Bytes::from(vec![0x01, 0x01, 0x00]);
    assert_eq!(
        RequestBody::parse_request_body(&mut message, &header),
        Ok(RequestBody::ApiVersions {
            client_id: String::new(),
            client_software_version: String::new(),
        })
    );
    let header = RequestHeader { api_key: ApiKey::DescribeTopicPartitions, ..header };
    let mut message = Bytes::from(vec![0x01, 0x00, 0x00, 0x00, 0x05, 0xFF, 0x00]);
    assert_eq!(
        RequestBody::parse_request_body(&mut message, &header),
        Ok(RequestBody::DescribeTopicPartitions {
            topics: vec![],
            response_partition_limit: 5,
            cursor: 0xFF,
        })
    );
    let header = RequestHeader { api_key: ApiKey::Unsupported, ..header };
    let mut message = Bytes::from(vec![0x01, 0x01, 0x00]);
    assert_eq!(
        RequestBody::parse_request_body(&mut message, &header),
        Err(DecodeError::UnsupportedApi { api_key: None })
    );
    assert_eq!(message.len(), 3);
}

#[test]
fn message_size_is_read_from_the_prefix() {
    let mut frame = Bytes::from(vec![0x00, 0x00, 0x00, 0x23, 0xAA]);
    assert_eq!(Request::read_message_size(&mut frame), Ok(35));
    assert_eq!(&frame[..], &[0xAA]);
    let mut frame = Bytes::from(vec![0x00, 0x00, 0x00, 0x08]);
    assert_eq!(Request::read_message_size(&mut frame), Ok(8));
    let mut frame = Bytes::from(vec![0x7F, 0xFF, 0xFF, 0xFF]);
    assert_eq!(Request::read_message_size(&mut frame), Ok(i32::MAX as usize));
}

#[test]
fn small_frame_is_rejected_without_consuming_the_body() {
    for size in [7i32, 0, -1, i32::MIN] {
        let mut bytes = size.to_be_bytes().to_vec();
        bytes.extend_from_slice(&[1, 2, 3, 4, 5, 6, 7]);
        let mut frame = Bytes::from(bytes.clone());
        assert_eq!(
            Request::parse_request(&mut frame),
            Err(DecodeError::FrameTooSmall { message_size: size })
        );
        assert_eq!(&frame[..], &[1, 2, 3, 4, 5, 6, 7]);
        let mut frame = Bytes::from(bytes);
        assert_eq!(
            Request::read_message_size(&mut frame),
            Err(DecodeError::FrameTooSmall { message_size: size })
        );
        assert_eq!(frame.len(), 7);
    }
}

#[test]
fn short_prefix_is_truncated() {
    let mut frame = Bytes::from(vec![0x00, 0x00, 0x00]);
    assert_eq!(
        Request::parse_request(&mut frame),
        Err(DecodeError::Truncated { expected: 4, available: 3 })
    );
    assert_eq!(frame.len(), 3);
}

#[test]
fn short_message_is_truncated() {
    let message = api_versions_message(4, 7);
    let mut bytes = framed(&message);
    bytes.truncate(4 + message.len() - 1);
    let mut frame = Bytes::from(bytes);
    assert_eq!(
        Request::parse_request(&mut frame),
        Err(DecodeError::Truncated { expected: message.len(), available: message.len() - 1 })
    );
}

#[test]
fn api_versions_request_is_decoded_from_a_frame() {
    let mut frame = Bytes::from(framed(&api_versions_message(4, 7)));
    let request = Request::parse_request(&mut frame).unwrap();
    assert_eq!(
        request,
        Request {
            request_header: RequestHeader {
                api_key: ApiKey::ApiVersions,
                api_version: 4,
                correlation_id: 7,
                client_id: String::new(),
            },
            request_body: RequestBody::ApiVersions {
                client_id: String::new(),
                client_software_version: String::new(),
            },
        }
    );
    assert!(frame.is_empty());
}

#[test]
fn describe_topic_partitions_request_is_decoded_from_a_frame() {
    let mut frame = Bytes::from(framed(&describe_message(&["foo"], 0xFF)));
    let request = Request::parse_request(&mut frame).unwrap();
    assert_eq!(request.request_header.api_key, ApiKey::DescribeTopicPartitions);
    assert_eq!(request.request_header.client_id, "cli");
    assert_eq!(
        request.request_body,
        RequestBody::DescribeTopicPartitions {
            topics: vec!["foo".to_string()],
            response_partition_limit: 100,
            cursor: 0xFF,
        }
    );
}

#[test]
fn frames_are_decoded_one_after_the_other() {
    let mut bytes = framed(&api_versions_message(3, 1));
    bytes.extend_from_slice(&framed(&describe_message(&["a", "b"], 0xFF)));
    bytes.extend_from_slice(&framed(&api_versions_message(0, 3)));
    let mut stream = Bytes::from(bytes);
    let first = Request::parse_request(&mut stream).unwrap();
    let second = Request::parse_request(&mut stream).unwrap();
    let third = Request::parse_request(&mut stream).unwrap();
    assert_eq!(first.request_header.correlation_id, 1);
    assert_eq!(second.request_header.api_key, ApiKey::DescribeTopicPartitions);
    assert_eq!(third.request_header.correlation_id, 3);
    assert!(stream.is_empty());
}

#[test]
fn bytes_of_a_message_after_its_body_are_skipped() {
    let mut message = api_versions_message(4, 7);
    message.extend_from_slice(&[0xDE, 0xAD]);
    let mut bytes = framed(&message);
    bytes.push(0x5A);
    let mut frame = Bytes::from(bytes);
    assert!(Request::parse_request(&mut frame).is_ok());
    assert_eq!(&frame[..], &[0x5A]);
}

#[test]
fn whole_frame_is_consumed_when_the_message_does_not_decode() {
    let mut bytes = framed(&describe_message(&["foo"], 0x01));
    bytes.push(0x5A);
    let mut frame = Bytes::from(bytes);
    assert_eq!(
        Request::parse_request(&mut frame),
        Err(DecodeError::InvalidCursor { cursor: 0x01 })
    );
    assert_eq!(&frame[..], &[0x5A]);
}

#[test]
fn unsupported_api_fails_to_decode() {
    let mut message = header_bytes(999, 0, 7, "");
    message.extend_from_slice(&[0x01, 0x01, 0x00]);
    let mut frame = Bytes::from(framed(&message));
    assert_eq!(
        Request::parse_request(&mut frame),
        Err(DecodeError::UnsupportedApi { api_key: Some(999) })
    );
    let mut message = Bytes::from(message);
    assert_eq!(
        Request::parse_message(&mut message),
        Err(DecodeError::UnsupportedApi { api_key: Some(999) })
    );
}

#[test]
fn message_is_decoded_without_a_prefix() {
    let mut message = Bytes::from(describe_message(&["foo", "quux"], 0xFF));
    let request = Request::parse_message(&mut message).unwrap();
    assert_eq!(
        request.request_body,
        RequestBody::DescribeTopicPartitions {
            topics: vec!["foo".to_string(), "quux".to_string()],
            response_partition_limit: 100,
            cursor: 0xFF,
        }
    );
    assert!(message.is_empty());
}
